use yu_hailo_infer::hailort::{
    check_clip_embedding_len, check_clip_image_metadata, check_status, check_yolo_metadata, validate_input_len,
    CompletionStatus,
    HailoRtError, TensorShape, VStreamSummary, HAILO_FORMAT_TYPE_FLOAT32, HAILO_FORMAT_TYPE_UINT8, HAILO_SUCCESS,
};

#[test]
fn hailo_success_constant_matches_header() {
    assert_eq!(HAILO_SUCCESS, 0);
}

#[test]
fn tensor_shape_size_multiplies_dimensions() {
    let shape = TensorShape::new([1, 640, 640 * 3]);
    assert_eq!(shape.element_count(), 1_228_800);
}

#[test]
fn tensor_shape_from_hailo_orders_height_width_features() {
    let shape = TensorShape::from_hailo(20, 30, 4);
    assert_eq!(shape.dimensions(), [20, 30, 4]);
    assert_eq!(shape.element_count(), 2400);
}

#[test]
fn status_error_includes_context_and_code() {
    let err = HailoRtError::status("create_vdevice", 74);
    assert_eq!(err.status_code(), Some(74));
    assert!(err.message().contains("create_vdevice"));
    assert!(err.message().contains("74"));
    assert_eq!(err.message(), "HailoRT create_vdevice failed with status 74");
}

#[test]
fn negative_status_codes_keep_their_sign() {
    assert_eq!(HailoRtError::status("x", -3).message(), "HailoRT x failed with status -3");
}

#[test]
fn check_status_is_ok_only_for_success() {
    assert!(check_status("configure", 0).is_ok());
    match check_status("configure", 2) {
        Err(HailoRtError::Status { context, code }) => {
            assert_eq!(context, "configure");
            assert_eq!(code, 2);
        }
        other => panic!("unexpected {other:?}"),
    }
}

#[test]
fn errors_without_a_status_have_no_code() {
    assert_eq!(HailoRtError::InvalidMetadata("missing YOLO input".to_string()).status_code(), None);
}

#[test]
fn completion_status_maps_raw_values() {
    assert_eq!(CompletionStatus::from_raw(0), CompletionStatus::Generating);
    assert_eq!(CompletionStatus::from_raw(1), CompletionStatus::MaxTokensReached);
    assert_eq!(CompletionStatus::from_raw(2), CompletionStatus::LogicalEndOfGeneration);
    assert_eq!(CompletionStatus::from_raw(7), CompletionStatus::Aborted);
    assert_eq!(CompletionStatus::from_raw(-1), CompletionStatus::Aborted);
    assert!(CompletionStatus::from_raw(0).is_generating());
    assert!(!CompletionStatus::from_raw(1).is_generating());
    assert!(!CompletionStatus::from_raw(9).is_generating());
}

fn stream(name: &str, format_type: u64, frame_size: usize) -> VStreamSummary {
    VStreamSummary { name: name.to_string(), shape: [1, 1, frame_size], format_type, frame_size }
}

#[test]
fn clip_image_metadata_needs_one_uint8_output_of_512_values() {
    let input = vec![stream("in", HAILO_FORMAT_TYPE_UINT8, 224 * 224 * 3)];
    assert!(check_clip_image_metadata(&input, &vec![stream("out", HAILO_FORMAT_TYPE_UINT8, 512)]).is_ok());
    match check_clip_image_metadata(&vec![], &vec![stream("out", HAILO_FORMAT_TYPE_UINT8, 512)]) {
        Err(HailoRtError::InvalidMetadata(m)) => assert_eq!(m, "missing CLIP image input"),
        other => panic!("unexpected {other:?}"),
    }
    let two = vec![stream("a", HAILO_FORMAT_TYPE_UINT8, 512), stream("b", HAILO_FORMAT_TYPE_UINT8, 512)];
    assert!(matches!(check_clip_image_metadata(&input, &two), Err(HailoRtError::InvalidMetadata(_))));
    let float = vec![stream("out", HAILO_FORMAT_TYPE_FLOAT32, 512)];
    assert!(matches!(check_clip_image_metadata(&input, &float), Err(HailoRtError::InvalidMetadata(_))));
    let short = vec![stream("out", HAILO_FORMAT_TYPE_UINT8, 511)];
    assert!(matches!(check_clip_image_metadata(&input, &short), Err(HailoRtError::InvalidMetadata(_))));
}

#[test]
fn input_buffers_must_match_the_first_frame_size() {
    let input = vec![stream("in", HAILO_FORMAT_TYPE_UINT8, 12)];
    assert!(validate_input_len(&input, 12).is_ok());
    assert!(matches!(validate_input_len(&input, 13), Err(HailoRtError::InvalidMetadata(_))));
    assert!(matches!(validate_input_len(&vec![], 0), Err(HailoRtError::InvalidMetadata(_))));
    assert!(check_clip_embedding_len(512).is_ok());
    assert!(check_clip_embedding_len(256).is_err());
}

#[test]
fn yolo_metadata_needs_one_input_and_some_output() {
    let input = vec![stream("in", HAILO_FORMAT_TYPE_UINT8, 12)];
    let output = vec![stream("out", HAILO_FORMAT_TYPE_FLOAT32, 4)];
    assert!(check_yolo_metadata(&input, &output).is_ok());
    match check_yolo_metadata(&vec![], &output) {
        Err(HailoRtError::InvalidMetadata(m)) => assert_eq!(m, "YOLO HEF must expose exactly one input vstream"),
        other => panic!("unexpected {other:?}"),
    }
    let two = vec![stream("a", HAILO_FORMAT_TYPE_UINT8, 12), stream("b", HAILO_FORMAT_TYPE_UINT8, 12)];
    assert!(check_yolo_metadata(&two, &output).is_err());
    match check_yolo_metadata(&input, &vec![]) {
        Err(HailoRtError::InvalidMetadata(m)) => assert_eq!(m, "YOLO HEF must expose at least one output vstream"),
        other => panic!("unexpected {other:?}"),
    }
}
