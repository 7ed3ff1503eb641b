use base64::Engine;
use yu_hailo_infer::media::{
    check_pcm_frames, decode_base64_wav, frame_bytes, parse_s2t_task, resampled_length, spend_decode_budget,
    wav_error_rejection, Speech2TextTask, WavDecodeError, WavPcm, MAX_AUDIO_BASE64_BYTES,
};

fn encode(bytes: Vec<u8>) -> String {
    base64::engine::general_purpose::STANDARD.encode(bytes)
}

fn pcm16_wav(channels: u16, sample_rate: u32, samples: &[i16]) -> Vec<u8> {
    let spec = hound::WavSpec { channels, sample_rate, bits_per_sample: 16, sample_format: hound::SampleFormat::Int };
    let mut cursor = std::io::Cursor::new(Vec::new());
    {
        let mut writer = hound::WavWriter::new(&mut cursor, spec).expect("create test WAV");
        for &s in samples {
            writer.write_sample(s).expect("write sample");
        }
        writer.finalize().expect("finalize");
    }
    cursor.into_inner()
}

fn int16(text: &str) -> (u16, u32, usize, Vec<i16>) {
    match decode_base64_wav(text).unwrap() {
        WavPcm::Int16 { channels, sample_rate, frames, samples } => (channels, sample_rate, frames, samples),
        other => panic!("unexpected {other:?}"),
    }
}

#[test]
fn decode_base64_wav_mono_passthrough() {
    let (channels, sample_rate, frames, samples) = int16(&encode(pcm16_wav(1, 16_000, &[0, 16383, -16383])));
    assert_eq!((channels, sample_rate, frames), (1, 16_000, 3));
    assert_eq!(samples, vec![0, 16383, -16383]);
    assert_eq!(resampled_length(frames, sample_rate, 16_000), 3);
    assert!((samples[1] as f32 / 32_768.0 - 0.5).abs() < 0.0001);
}

#[test]
fn decode_base64_wav_averages_stereo() {
    let (channels, sample_rate, frames, samples) = int16(&encode(pcm16_wav(2, 16_000, &[32767, -32767, 16383, 0])));
    assert_eq!((channels, sample_rate, frames), (2, 16_000, 2));
    assert_eq!(samples, vec![32767, -32767, 16383, 0]);
    let means: Vec<f32> = samples.chunks_exact(2).map(|f| (f[0] as f32 + f[1] as f32) / 2.0 / 32_768.0).collect();
    assert!(means[0].abs() < 0.0001);
    assert!((means[1] - 0.25).abs() < 0.0001);
}

#[test]
fn decode_base64_wav_upsamples_linearly() {
    let (_, sample_rate, frames, samples) = int16(&encode(pcm16_wav(1, 8_000, &[0, 32767])));
    assert_eq!((sample_rate, frames), (8_000, 2));
    assert_eq!(samples, vec![0, 32767]);
    assert_eq!(resampled_length(frames, sample_rate, 16_000), 4);
}

#[test]
fn decode_base64_wav_downsamples_linearly() {
    let (_, sample_rate, frames, _) = int16(&encode(pcm16_wav(1, 32_000, &[0, 8191, 16383, 24575])));
    assert_eq!((sample_rate, frames), (32_000, 4));
    assert_eq!(resampled_length(frames, sample_rate, 16_000), 2);
    assert_eq!(resampled_length(3, 16_000, 16_000), 3);
    assert_eq!(resampled_length(0, 8_000, 16_000), 0);
}

#[test]
fn decode_base64_wav_rejects_invalid_base64() {
    assert_eq!(decode_base64_wav("%%%").unwrap_err(), WavDecodeError::InvalidBase64);
}

#[test]
fn decode_base64_wav_rejects_unsupported_sample_format() {
    let spec = hound::WavSpec { channels: 1, sample_rate: 16_000, bits_per_sample: 8, sample_format: hound::SampleFormat::Int };
    let mut cursor = std::io::Cursor::new(Vec::new());
    {
        let mut writer = hound::WavWriter::new(&mut cursor, spec).expect("create 8-bit WAV");
        writer.write_sample(0i8).expect("write 8-bit sample");
        writer.finalize().expect("finalize 8-bit WAV");
    }
    assert_eq!(decode_base64_wav(&encode(cursor.into_inner())).unwrap_err(), WavDecodeError::UnsupportedFormat);
}

#[test]
fn decode_base64_wav_rejects_zero_channels_before_division() {
    let mut bytes = pcm16_wav(1, 16_000, &[0]);
    bytes[22..24].copy_from_slice(&0u16.to_le_bytes());
    assert_eq!(decode_base64_wav(&encode(bytes)).unwrap_err(), WavDecodeError::UnsupportedFormat);
}

#[test]
fn decode_base64_wav_rejects_zero_sample_rate_before_division() {
    let mut bytes = pcm16_wav(1, 16_000, &[0]);
    bytes[24..28].copy_from_slice(&0u32.to_le_bytes());
    assert_eq!(decode_base64_wav(&encode(bytes)).unwrap_err(), WavDecodeError::UnsupportedFormat);
}

#[test]
fn decode_base64_wav_rejects_oversized_base64_before_decode() {
    assert_eq!(decode_base64_wav(&"%".repeat(MAX_AUDIO_BASE64_BYTES + 1)).unwrap_err(), WavDecodeError::TooLarge);
}

#[test]
fn decode_base64_wav_rejects_projected_length_before_resampling() {
    let encoded = encode(pcm16_wav(1, 1, &vec![0; 601]));
    assert_eq!(decode_base64_wav(&encoded).unwrap_err(), WavDecodeError::TooLong);
}

#[test]
fn decode_base64_wav_rejects_empty_pcm() {
    assert_eq!(decode_base64_wav(&encode(pcm16_wav(1, 16_000, &[]))).unwrap_err(), WavDecodeError::Empty);
}

#[test]
fn float_wavs_are_handed_back_for_the_caller_to_read() {
    let spec = hound::WavSpec { channels: 1, sample_rate: 16_000, bits_per_sample: 32, sample_format: hound::SampleFormat::Float };
    let mut cursor = std::io::Cursor::new(Vec::new());
    {
        let mut writer = hound::WavWriter::new(&mut cursor, spec).expect("create float WAV");
        for s in [f32::NAN, 0.25] {
            writer.write_sample(s).expect("write");
        }
        writer.finalize().expect("finalize");
    }
    let bytes = cursor.into_inner();
    match decode_base64_wav(&encode(bytes.clone())).unwrap() {
        WavPcm::Float32 { channels, sample_rate, wav } => {
            assert_eq!((channels, sample_rate), (1, 16_000));
            assert_eq!(wav, bytes);
        }
        other => panic!("unexpected {other:?}"),
    }
}

#[test]
fn frames_need_one_complete_frame_and_fit_ten_minutes() {
    assert_eq!(check_pcm_frames(3, 2, 16_000), Ok(1));
    assert_eq!(check_pcm_frames(1, 2, 16_000), Err(WavDecodeError::Empty));
    assert_eq!(check_pcm_frames(9_600_001, 1, 16_000), Err(WavDecodeError::TooLong));
    assert_eq!(check_pcm_frames(9_600_000, 1, 16_000), Ok(9_600_000));
}

#[test]
fn wav_errors_map_to_responses() {
    assert_eq!(wav_error_rejection(&WavDecodeError::TooLarge).status, 413);
    assert_eq!(wav_error_rejection(&WavDecodeError::InvalidBase64).code, "invalid_audio_base64");
    assert_eq!(wav_error_rejection(&WavDecodeError::UnsupportedFormat).code, "unsupported_wav_format");
    assert_eq!(wav_error_rejection(&WavDecodeError::TooLong).code, "audio_too_long");
    assert_eq!(wav_error_rejection(&WavDecodeError::Empty).code, "audio_empty");
}

#[test]
fn speech2text_transcribe_rejects_invalid_task() {
    assert_eq!(parse_s2t_task(None).unwrap(), Speech2TextTask::Transcribe);
    assert_eq!(parse_s2t_task(Some("translate")).unwrap(), Speech2TextTask::Translate);
    let r = parse_s2t_task(Some("summarize")).unwrap_err();
    assert_eq!((r.status, r.code.as_str()), (400, "invalid_task"));
}

#[test]
fn decode_base64_image_enforces_request_level_budget() {
    assert!(frame_bytes("AAAA", 0).unwrap_err().contains("budget exhausted"));
    assert_eq!(frame_bytes("AAEC", 10).unwrap(), vec![0, 1, 2]);
    assert!(frame_bytes("%%%", 10).unwrap_err().starts_with("invalid base64 frame"));
    assert!(frame_bytes(&"A".repeat(8 * 1024 * 1024 + 1), 10).unwrap_err().contains("exceeds"));
    assert_eq!(spend_decode_budget(10, 4), 6);
    assert_eq!(spend_decode_budget(10, 40), 0);
}

#[test]
fn clip_image_rejects_invalid_base64() {
    let r = frame_bytes("%%%", yu_hailo_infer::media::MAX_TOTAL_DECODED_IMAGE_BYTES);
    assert!(r.unwrap_err().starts_with("invalid base64 frame"));
}

#[test]
fn yolo_input_text_must_be_valid_base64() {
    assert_eq!(yu_hailo_infer::media::yolo_input_bytes("AAEC").unwrap(), vec![0, 1, 2]);
    let r = yu_hailo_infer::media::yolo_input_bytes("%%%").unwrap_err();
    assert_eq!(r.status, 400);
    assert_eq!(r.code, "hailort_yolo_detect_failed");
    assert!(r.message.starts_with("invalid input_base64: "));
}

#[test]
fn speech2text_transcribe_rejects_empty_audio() {
    let r = yu_hailo_infer::media::check_audio_present("").unwrap();
    assert_eq!((r.status, r.code.as_str(), r.message.as_str()), (400, "audio_required", "audio_base64 is required"));
    assert!(yu_hailo_infer::media::check_audio_present("UklGRg==").is_none());
}

#[test]
fn yolo_input_is_refused_for_size_before_it_is_decoded() {
    let too_long = "%".repeat(8 * 1024 * 1024 + 1);
    let r = yu_hailo_infer::media::prepare_yolo_input(&too_long).unwrap_err();
    assert_eq!(
        (r.status, r.code.as_str(), r.message.as_str()),
        (413, "hailort_yolo_detect_input_too_large", "input_base64 exceeds 8388608 bytes")
    );
    let r = yu_hailo_infer::media::prepare_yolo_input("%%%").unwrap_err();
    assert_eq!((r.status, r.code.as_str()), (400, "hailort_yolo_detect_failed"));
    assert_eq!(yu_hailo_infer::media::prepare_yolo_input("AAEC").unwrap(), vec![0, 1, 2]);
}

#[test]
fn float_wav_frames_are_checked_like_integer_ones() {
    assert_eq!(yu_hailo_infer::media::float_pcm_frames(2, 16_000, Some(8)), Ok(4));
    assert_eq!(yu_hailo_infer::media::float_pcm_frames(2, 16_000, None), Err(WavDecodeError::UnsupportedFormat));
    assert_eq!(yu_hailo_infer::media::float_pcm_frames(0, 16_000, Some(8)), Err(WavDecodeError::UnsupportedFormat));
    assert_eq!(yu_hailo_infer::media::float_pcm_frames(1, 0, Some(8)), Err(WavDecodeError::UnsupportedFormat));
    assert_eq!(yu_hailo_infer::media::float_pcm_frames(2, 16_000, Some(1)), Err(WavDecodeError::Empty));
    assert_eq!(yu_hailo_infer::media::float_pcm_frames(1, 1, Some(601)), Err(WavDecodeError::TooLong));
}
