use yu_hailo_infer::engine::builtin_wd_profile;
use yu_hailo_infer::model_dir::{
    both_present, clip_image_model_file, clip_text_model_files, is_clip_image_model_downloaded,
    is_clip_text_model_downloaded, is_model_downloaded, is_profile_model_ready, profile_model_files, resolve_model_dir,
    wd_model_files,
};

fn joined(parts: &[&str]) -> String {
    let mut p = std::path::PathBuf::from(parts[0]);
    for part in &parts[1..] {
        p = p.join(part);
    }
    p.to_string_lossy().into_owned()
}

#[test]
fn a_variant_subdirectory_is_joined_when_it_is_a_plain_relative_path() {
    assert_eq!(resolve_model_dir("/cache", "repo", None), Some(joined(&["/cache", "repo"])));
    assert_eq!(
        resolve_model_dir("/cache", "repo", Some("")),
        Some(joined(&["/cache", "repo"])),
        "an empty subdir means no subdir"
    );
    assert_eq!(
        resolve_model_dir("/cache", "repo", Some("v1.1/fp16")),
        Some(joined(&["/cache", "repo", "v1.1", "fp16"]))
    );
}

#[test]
fn a_subdirectory_that_escapes_the_cache_is_refused() {
    for bad in ["..", "../other", "v1/../../etc", "/abs", "a/b/c/d/e", "a b", "a\\b", "."] {
        assert_eq!(
            resolve_model_dir("/cache", "repo", Some(bad)),
            None,
            "subdir {bad:?} must be refused, not joined"
        );
    }
}

#[test]
fn four_segments_are_the_most_a_subdirectory_may_have() {
    assert_eq!(
        resolve_model_dir("/cache", "repo", Some("a/b/c/d")),
        Some(joined(&["/cache", "repo", "a", "b", "c", "d"]))
    );
    assert_eq!(resolve_model_dir("/cache", "repo", Some("a//b")), None);
    assert_eq!(resolve_model_dir("/cache", "repo", Some("a/")), None);
}

#[test]
fn lib_is_model_downloaded_returns_false_when_missing() {
    assert!(!is_model_downloaded("/nonexistent-yu-hailo-infer-cache", "wd_vit_v3"));
}

#[test]
fn missing_model_directories_are_not_ready() {
    let dir = "/nonexistent/yu-hailo-infer/model";
    assert!(!is_clip_text_model_downloaded(dir));
    assert!(!is_clip_image_model_downloaded(dir));
    let spec = builtin_wd_profile("model.onnx", 0.35f32.to_bits(), 0.85f32.to_bits());
    assert!(!is_profile_model_ready(dir, &spec));
}

#[test]
fn readiness_checks_probe_the_files_each_model_needs() {
    assert_eq!(
        wd_model_files("/cache", "wd_vit_v3"),
        ("/cache/wd_vit_v3/model.onnx".to_string(), "/cache/wd_vit_v3/selected_tags.csv".to_string())
    );
    assert_eq!(
        clip_text_model_files("/m/"),
        ("/m/text_model.onnx".to_string(), "/m/tokenizer.json".to_string())
    );
    assert_eq!(clip_image_model_file("/m"), "/m/vision_model.onnx");
    let spec = builtin_wd_profile("camie.onnx", 0.35f32.to_bits(), 0.85f32.to_bits());
    assert_eq!(
        profile_model_files("/d", &spec),
        ("/d/camie.onnx".to_string(), "/d/selected_tags.csv".to_string())
    );
    assert!(both_present(true, true));
    assert!(!both_present(true, false));
    assert!(!both_present(false, true));
    assert_eq!(wd_model_files("/cache", "/abs").0, "/abs/model.onnx");
    assert_eq!(clip_image_model_file(""), "vision_model.onnx");
}
