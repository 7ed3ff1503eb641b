use yu_hailo_infer::requests::{
    check_auth, check_model_id, check_scan_roots, clip_text_model_dir, effective_timeout_ms, env_or_default_path,
    llm_hef_path, media_preprocessing_permits, validate_clip_input_shape, validate_frame_len,
    validate_llm_stream_request, validate_text_len, validate_vlm_input, validate_vlm_stream_request,
    validate_yolo_input, verify_token, yolo_hef_path, AppState, HefQuery, LlmChatMessageRequest,
    MAX_IMAGE_PREPROCESSING_RESERVATION_BYTES,
};

fn msg(content: &str) -> LlmChatMessageRequest {
    LlmChatMessageRequest { role: "user".to_string(), content: content.to_string() }
}

#[test]
fn auth_needs_the_bearer_prefix_and_the_exact_token() {
    assert!(check_auth(Some("Bearer test-token"), "test-token"));
    assert!(!check_auth(None, "test-token"));
    assert!(!check_auth(Some("test-token"), "test-token"));
    assert!(!check_auth(Some("bearer test-token"), "test-token"));
    assert!(!check_auth(Some("Bearer test-token2"), "test-token"));
    assert!(!check_auth(Some("Bearer "), "test-token"));
    assert!(verify_token("abc", "abc"));
    assert!(!verify_token("abc", "abd"));
    assert!(!verify_token("ab", "abc"));
}

#[test]
fn infer_wd_rejects_invalid_model_id() {
    assert!(check_model_id("wd_vit_v3"));
    assert!(!check_model_id("../etc"));
    assert!(!check_model_id("a/b"));
    assert!(!check_model_id("a\\b"));
    assert!(!check_model_id("a..b"));
    assert!(check_model_id("v1.1"));
}

#[test]
fn scan_roots_must_be_set_and_contain_the_path() {
    assert!(!check_scan_roots(&Vec::new(), "/data/images/a.png"));
    let roots = vec!["/data/images".to_string()];
    assert!(check_scan_roots(&roots, "/data/images/a.png"));
    assert!(!check_scan_roots(&roots, "/data/imagesx/a.png"));
    assert!(!check_scan_roots(&roots, "/etc/passwd"));
}

#[test]
fn default_hef_paths_come_from_the_environment_or_home() {
    let expected = std::path::Path::new("/home/pi").join("hailo_models").join("yolov8n.hef");
    assert_eq!(yolo_hef_path(&HefQuery { hef_path: None }, None, None), expected.to_string_lossy());
    assert_eq!(yolo_hef_path(&HefQuery { hef_path: Some("/x.hef".to_string()) }, Some("/env.hef"), None), "/x.hef");
    assert_eq!(llm_hef_path(None, Some("/env.hef"), Some("/root")), "/env.hef");
    let home = std::path::Path::new("/root").join("hailo_models").join("Llama3.2-1B-Instruct.hef");
    assert_eq!(llm_hef_path(None, None, Some("/root")), home.to_string_lossy());
    assert_eq!(env_or_default_path(Some("/v"), Some("/h"), "n"), "/v");
    let clip = std::path::Path::new("/h")
        .join(".cache")
        .join("yu_ai_manager")
        .join("clip_onnx")
        .join("Xenova_clip-vit-base-patch16");
    assert_eq!(clip_text_model_dir(None, None, Some("/h")), clip.to_string_lossy());
}

#[test]
fn timeouts_default_to_30s_and_are_capped_at_120s() {
    assert_eq!(effective_timeout_ms(None), 30_000);
    assert_eq!(effective_timeout_ms(Some(5)), 5);
    assert_eq!(effective_timeout_ms(Some(500_000)), 120_000);
}

#[test]
fn media_preprocessing_rejects_work_that_exceeds_the_global_budget() {
    assert_eq!(media_preprocessing_permits(MAX_IMAGE_PREPROCESSING_RESERVATION_BYTES), 96);
    assert_eq!(media_preprocessing_permits(1), 1);
    assert_eq!(media_preprocessing_permits(0), 0);
    assert_eq!(media_preprocessing_permits(1024 * 1024 + 1), 2);
    assert!(media_preprocessing_permits(257 * 1024 * 1024) > 256);
}

#[test]
fn clip_text_rejects_oversized_text() {
    assert!(validate_text_len(&"a".repeat(16 * 1024)).is_none());
    let r = validate_text_len(&"a".repeat(16 * 1024 + 1)).unwrap();
    assert_eq!((r.status, r.code.as_str()), (413, "text_too_large"));
}

#[test]
fn llm_generate_stream_rejects_missing_messages() {
    let r = validate_llm_stream_request(&Vec::new(), &Vec::new(), None).unwrap_err();
    assert_eq!((r.status, r.code.as_str()), (400, "llm_messages_required"));
}

#[test]
fn llm_generate_stream_rejects_oversized_prompt() {
    let r = validate_llm_stream_request(&vec![msg(&"a".repeat(16 * 1024 + 1))], &Vec::new(), None).unwrap_err();
    assert_eq!((r.status, r.code.as_str()), (413, "prompt_too_large"));
    let split = vec![msg(&"a".repeat(8 * 1024)), msg(&"a".repeat(8 * 1024 + 1))];
    assert_eq!(validate_llm_stream_request(&split, &Vec::new(), None).unwrap_err().code, "prompt_too_large");
}

#[test]
fn llm_generate_stream_rejects_oversized_max_generated_tokens() {
    let r = validate_llm_stream_request(&vec![msg("hi")], &Vec::new(), Some(4097)).unwrap_err();
    assert_eq!((r.status, r.code.as_str()), (400, "llm_max_generated_tokens_too_large"));
    assert!(validate_llm_stream_request(&vec![msg("hi")], &Vec::new(), Some(4096)).is_ok());
}

#[test]
fn llm_generate_stream_rejects_too_many_tools() {
    let tools: Vec<String> = (0..65).map(|i| format!("{{\"name\":\"t{i}\"}}")).collect();
    let r = validate_llm_stream_request(&vec![msg("hi")], &tools, None).unwrap_err();
    assert_eq!((r.status, r.code.as_str()), (400, "llm_too_many_tools"));
}

#[test]
fn llm_generate_stream_rejects_oversized_tools() {
    let tools = vec!["x".repeat(16 * 1024 + 1)];
    let r = validate_llm_stream_request(&vec![msg("hi")], &tools, None).unwrap_err();
    assert_eq!((r.status, r.code.as_str()), (413, "tools_too_large"));
}

#[test]
fn llm_generate_stream_rejects_too_many_messages() {
    let messages: Vec<LlmChatMessageRequest> = (0..257).map(|_| msg("x")).collect();
    let r = validate_llm_stream_request(&messages, &Vec::new(), None).unwrap_err();
    assert_eq!((r.status, r.code.as_str()), (400, "llm_too_many_messages"));
}

#[test]
fn vlm_generate_stream_rejects_missing_frames() {
    let r = validate_vlm_input("describe", 0).unwrap_err();
    assert_eq!((r.status, r.code.as_str()), (400, "vlm_frames_required"));
    assert_eq!(validate_vlm_input("describe", 9).unwrap_err().code, "vlm_too_many_frames");
    assert!(validate_vlm_input("describe", 8).is_ok());
}

#[test]
fn vlm_generate_stream_rejects_oversized_max_generated_tokens() {
    let r = validate_vlm_stream_request("describe", 1, Some(5000)).unwrap_err();
    assert_eq!((r.status, r.code.as_str()), (400, "vlm_max_generated_tokens_too_large"));
    assert!(validate_vlm_stream_request("describe", 1, Some(4096)).is_ok());
}

#[test]
fn clip_image_rejects_oversized_base64() {
    let big = "A".repeat(8 * 1024 * 1024 + 1);
    let r = validate_frame_len(&big, "clip_image_too_large", "image_base64").unwrap();
    assert_eq!((r.status, r.code.as_str()), (413, "clip_image_too_large"));
    assert!(validate_frame_len("AAAA", "clip_image_too_large", "image_base64").is_none());
}

#[test]
fn clip_image_metadata_must_be_rgb_hwc() {
    assert!(validate_clip_input_shape([224, 224, 3]).is_none());
    assert_eq!(validate_clip_input_shape([224, 224, 1]).unwrap().code, "hailort_clip_image_invalid_metadata");
    assert!(validate_clip_input_shape([0, 224, 3]).is_some());
}

#[test]
fn yolo_input_rejects_wrong_size() {
    assert_eq!(validate_yolo_input(&Vec::new(), 10).unwrap().code, "hailort_yolo_invalid_metadata");
    let r = validate_yolo_input(&vec![640 * 640 * 3], 10).unwrap();
    assert_eq!((r.status, r.code.as_str()), (400, "hailort_yolo_detect_input_size_mismatch"));
    assert!(validate_yolo_input(&vec![12], 12).is_none());
}

#[test]
fn infer_wd_rejects_missing_auth_header() {
    assert!(!check_auth(None, "test-token"));
}

#[test]
fn llm_generate_stream_rejects_missing_auth() {
    assert!(!check_auth(None, "test-token"));
}

#[test]
fn vlm_generate_stream_rejects_missing_auth() {
    assert!(!check_auth(None, "test-token"));
}

#[test]
fn clip_image_rejects_missing_auth() {
    assert!(!check_auth(None, "test-token"));
}

#[test]
fn clip_text_rejects_missing_auth() {
    assert!(!check_auth(None, "test-token"));
}

#[test]
fn speech2text_transcribe_rejects_missing_auth() {
    assert!(!check_auth(None, "test-token"));
}

#[test]
fn infer_wd_rejects_empty_scan_roots() {
    assert!(!check_scan_roots(&Vec::new(), "/tmp/yu-infer-empty-scan-roots-test"));
}

#[test]
fn infer_wd_rejects_path_outside_scan_roots() {
    let roots = vec!["/tmp/yu-infer-allowed-root".to_string()];
    assert!(!check_scan_roots(&roots, "/tmp/yu-infer-outside-root"));
    assert!(check_scan_roots(&roots, "/tmp/yu-infer-allowed-root/a.png"));
}

#[test]
fn a_stale_scan_roots_change_does_not_overwrite_a_newer_one() {
    let mut state = AppState {
        instance_id: "i".to_string(),
        scan_roots: vec!["/start".to_string()],
        auth_token: "t".to_string(),
        wd_cache_dir: "/cache".to_string(),
        scan_roots_generation: None,
    };
    assert!(state.apply_scan_roots_change(vec!["/five".to_string()], Some(5)));
    assert_eq!(state.scan_roots, vec!["/five".to_string()]);
    assert_eq!(state.scan_roots_generation, Some(5));
    assert!(!state.apply_scan_roots_change(vec!["/four".to_string()], Some(4)));
    assert!(!state.apply_scan_roots_change(vec!["/five-again".to_string()], Some(5)));
    assert_eq!(state.scan_roots, vec!["/five".to_string()]);
    assert!(state.apply_scan_roots_change(vec!["/legacy".to_string()], None));
    assert_eq!(state.scan_roots, vec!["/legacy".to_string()]);
    assert_eq!(state.scan_roots_generation, Some(5));
    assert!(state.apply_scan_roots_change(vec!["/six".to_string()], Some(6)));
    assert_eq!(state.scan_roots_generation, Some(6));
}

#[test]
fn rejections_carry_their_messages() {
    let r = validate_yolo_input(&vec![12], 10).unwrap();
    assert_eq!(r.status, 400);
    assert_eq!(r.code, "hailort_yolo_detect_input_size_mismatch");
    assert_eq!(r.message, "YOLO input size mismatch: expected 12 bytes, got 10");
    let r = validate_frame_len(&"A".repeat(8 * 1024 * 1024 + 1), "clip_image_too_large", "image_base64").unwrap();
    assert_eq!(r.message, "image_base64 exceeds 8388608 bytes");
    let r = validate_llm_stream_request(&vec![], &vec![], None).unwrap_err();
    assert_eq!(r.message, "at least one message is required");
    let r = validate_vlm_stream_request("p", 0, None).unwrap_err();
    assert_eq!((r.status, r.code.as_str(), r.message.as_str()), (400, "vlm_frames_required", "at least one image frame is required"));
}

#[test]
fn yolo_settings_default_to_80_classes_at_640_pixels() {
    let s = yu_hailo_infer::requests::yolo_settings(None, None, None, None);
    assert_eq!((s.num_classes, s.input_size, s.orig_w, s.orig_h), (80, 640, 640, 640));
    let s = yu_hailo_infer::requests::yolo_settings(Some(3), Some(320), None, Some(200));
    assert_eq!((s.num_classes, s.input_size, s.orig_w, s.orig_h), (3, 320, 320, 200));
}
