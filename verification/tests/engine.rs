use yu_hailo_infer::engine::{
    build_result, builtin_wd_profile, f32_is_nan_bits, f32_less, rank_tags, validate_wd_image_dimensions,
};
use yu_hailo_infer::tags::TagMeta;
use yu_hailo_infer::error::InferError;
use yu_hailo_infer::profile::TagSourceSpec;

#[test]
fn wd_image_dimension_limits_reject_oversized_and_overflowing_inputs() {
    assert!(validate_wd_image_dimensions(4096, 4096).is_ok());
    assert!(validate_wd_image_dimensions(4097, 1).is_err());
    assert!(validate_wd_image_dimensions(u32::MAX, u32::MAX).is_err());
}

#[test]
fn zero_sized_images_are_refused() {
    assert!(matches!(validate_wd_image_dimensions(0, 10), Err(InferError::InvalidModelOutput(_))));
    assert!(matches!(validate_wd_image_dimensions(10, 0), Err(InferError::InvalidModelOutput(_))));
    assert!(validate_wd_image_dimensions(1, 1).is_ok());
}

#[test]
fn the_builtin_wd_profile_matches_the_shipped_v1_profiles() {
    let p = builtin_wd_profile("model.onnx", 0.35f32.to_bits(), 0.85f32.to_bits());
    assert_eq!(p.model_file, "model.onnx");
    assert_eq!(p.preprocess_spec.input_size, 448);
    assert_eq!(p.preprocess_spec.channel_order, "BGR");
    assert_eq!(p.preprocess_spec.layout, "NHWC");
    assert_eq!(p.preprocess_spec.pad_color, [255, 255, 255]);
    assert_eq!(p.preprocess_spec.scale_bits, 1.0f32.to_bits());
    assert_eq!(p.preprocess_spec.mean_bits, None);
    assert_eq!(p.preprocess_spec.std_bits, None);
    assert!(!p.output_spec.wants_sigmoid());
    assert!(p.validate().is_ok());
    match &p.tag_source {
        TagSourceSpec::Csv { file, delimiter, name_col, category_col, category_map } => {
            assert_eq!(file, "selected_tags.csv");
            assert_eq!(delimiter, ",");
            assert_eq!(name_col, "name");
            assert_eq!(category_col, "category");
            assert_eq!(category_map.len(), 3);
        }
        other => panic!("unexpected tag source {other:?}"),
    }
    assert_eq!(p.threshold_for("general"), 0.35f32.to_bits());
    assert_eq!(p.threshold_for("character"), 0.85f32.to_bits());
    assert_eq!(p.threshold_for("rating"), 0.0f32.to_bits());
    assert_eq!(p.threshold_for("meta"), 0.35f32.to_bits());
    assert_eq!(p.supports_categories, vec!["general", "character", "rating"]);
}

fn wd_meta() -> TagMeta {
    TagMeta {
        tags: vec![
            ("general".to_string(), "rating".to_string()),
            ("explicit".to_string(), "rating".to_string()),
            ("1girl".to_string(), "general".to_string()),
            ("solo".to_string(), "general".to_string()),
            ("hatsune_miku".to_string(), "character".to_string()),
            ("highres".to_string(), "meta".to_string()),
        ],
        rating_indices: vec![0, 1],
    }
}

#[test]
fn build_result_picks_the_top_rating_and_sorts_passing_tags() {
    let spec = builtin_wd_profile("model.onnx", 0.35f32.to_bits(), 0.85f32.to_bits());
    let scores: Vec<u32> = [0.2f32, 0.7, 0.5, 0.9, 0.86, 0.3].iter().map(|f| f.to_bits()).collect();
    let r = build_result(&wd_meta(), &spec, &scores);
    assert_eq!(r.rating, "explicit");
    let names: Vec<&str> = r.tags.iter().map(|t| t.tag.as_str()).collect();
    assert_eq!(names, vec!["solo", "hatsune_miku", "1girl"]);
    assert_eq!(r.tags[0].confidence_bits, 0.9f32.to_bits());
    assert_eq!(r.tags[1].category, "character");
}

#[test]
fn build_result_keeps_tag_order_for_equal_confidences_and_defaults_the_rating() {
    let spec = builtin_wd_profile("model.onnx", 0.35f32.to_bits(), 0.85f32.to_bits());
    let scores: Vec<u32> = [0.0f32, 0.0, 0.5, 0.5, 0.1, 0.5].iter().map(|f| f.to_bits()).collect();
    let r = build_result(&wd_meta(), &spec, &scores);
    assert_eq!(r.rating, "general");
    let names: Vec<&str> = r.tags.iter().map(|t| t.tag.as_str()).collect();
    assert_eq!(names, vec!["1girl", "solo", "highres"]);
}

#[test]
fn build_result_reads_only_the_scores_it_has() {
    let spec = builtin_wd_profile("model.onnx", 0.35f32.to_bits(), 0.85f32.to_bits());
    let scores: Vec<u32> = [0.1f32, 0.2, 0.9].iter().map(|f| f.to_bits()).collect();
    let r = build_result(&wd_meta(), &spec, &scores);
    assert_eq!(r.rating, "explicit");
    assert_eq!(r.tags.len(), 1);
    assert_eq!(r.tags[0].tag, "1girl");
}

#[test]
fn float_bit_order_matches_float_order() {
    let values = [-2.5f32, -0.0, 0.0, 1e-30, 0.5, 3.0, f32::INFINITY];
    for a in values {
        for b in values {
            assert_eq!(f32_less(a.to_bits(), b.to_bits()), a < b, "{a} < {b}");
        }
    }
    assert!(f32_is_nan_bits(f32::NAN.to_bits()));
    assert!(!f32_is_nan_bits(f32::INFINITY.to_bits()));
}

fn two_threshold_meta() -> TagMeta {
    TagMeta {
        tags: vec![
            ("sensitive".to_string(), "rating".to_string()),
            ("explicit".to_string(), "rating".to_string()),
            ("1girl".to_string(), "general".to_string()),
            ("some_artist".to_string(), "artist".to_string()),
            ("hatsune_miku".to_string(), "character".to_string()),
        ],
        rating_indices: vec![0, 1],
    }
}

#[test]
fn two_thresholds_seed_the_rating_with_the_first_rating_tag() {
    let scores: Vec<u32> = [0.0f32, 0.0, 0.4, 0.5, 0.8].iter().map(|f| f.to_bits()).collect();
    let r = rank_tags(&two_threshold_meta(), 0.35f32.to_bits(), 0.85f32.to_bits(), &scores);
    assert_eq!(r.rating, "sensitive");
    let names: Vec<&str> = r.tags.iter().map(|t| t.tag.as_str()).collect();
    assert_eq!(names, vec!["some_artist", "1girl"]);
}

#[test]
fn two_thresholds_pick_the_strictly_best_rating_and_sort_by_confidence() {
    let scores: Vec<u32> = [0.3f32, 0.6, 0.9, 0.36, 0.85].iter().map(|f| f.to_bits()).collect();
    let r = rank_tags(&two_threshold_meta(), 0.35f32.to_bits(), 0.85f32.to_bits(), &scores);
    assert_eq!(r.rating, "explicit");
    let names: Vec<&str> = r.tags.iter().map(|t| t.tag.as_str()).collect();
    assert_eq!(names, vec!["1girl", "hatsune_miku", "some_artist"]);
    let empty = rank_tags(&TagMeta { tags: vec![], rating_indices: vec![] }, 0, 0, &vec![]);
    assert_eq!(empty.rating, "general");
    assert!(empty.tags.is_empty());
}
