use yu_hailo_infer::error::InferError;
use yu_hailo_infer::profile::{OutputSpec, PreprocessSpec, TagSourceSpec, WdProfileSpec};

fn minimal() -> WdProfileSpec {
    WdProfileSpec {
        model_file: "model.onnx".to_string(),
        preprocess_spec: PreprocessSpec::with_input_size(448),
        tag_source: TagSourceSpec::csv_with_defaults("selected_tags.csv", Vec::new()),
        output_spec: OutputSpec::none(),
        default_thresholds: Vec::new(),
        categories_mode: "from_tag_source".to_string(),
        supports_categories: Vec::new(),
    }
}

#[test]
fn omitted_preprocess_fields_fall_back_to_the_python_defaults() {
    let s = minimal();
    assert_eq!(s.preprocess_spec.resize_strategy, "longest_side_pad");
    assert_eq!(s.preprocess_spec.pad_color, [255, 255, 255]);
    assert_eq!(s.preprocess_spec.channel_order, "RGB");
    assert_eq!(s.preprocess_spec.scale_bits, 1.0f32.to_bits());
    assert_eq!(s.preprocess_spec.mean_bits, None);
    assert_eq!(s.preprocess_spec.std_bits, None);
    assert_eq!(s.preprocess_spec.layout, "NHWC");
    assert_eq!(s.categories_mode, "from_tag_source");
    assert!(!s.output_spec.wants_sigmoid());
    s.validate().expect("minimal profile is supported");
}

#[test]
fn threshold_falls_back_to_0_35_only_when_general_is_absent_too() {
    let mut s = minimal();
    s.default_thresholds.clear();
    assert_eq!(s.threshold_for("general"), 0.35f32.to_bits());
    s.default_thresholds.push(("general".into(), 0.5f32.to_bits()));
    assert_eq!(s.threshold_for("anything"), 0.5f32.to_bits());
}

#[test]
fn a_category_threshold_beats_general() {
    let mut s = minimal();
    s.default_thresholds.push(("general".into(), 0.55f32.to_bits()));
    s.default_thresholds.push(("meta".into(), 0.7f32.to_bits()));
    assert_eq!(s.threshold_for("meta"), 0.7f32.to_bits());
    assert_eq!(s.threshold_for("no_such_category"), 0.55f32.to_bits());
}

#[test]
fn unsupported_recipes_are_rejected_rather_than_approximated() {
    let mut cases: Vec<(&str, WdProfileSpec)> = Vec::new();
    let mut s = minimal();
    s.preprocess_spec.resize_strategy = "stretch".to_string();
    cases.push(("resize_strategy", s));
    let mut s = minimal();
    s.preprocess_spec.channel_order = "YUV".to_string();
    cases.push(("channel_order", s));
    let mut s = minimal();
    s.preprocess_spec.layout = "NWHC".to_string();
    cases.push(("layout", s));
    let mut s = minimal();
    s.output_spec.activation = Some("softmax".to_string());
    cases.push(("activation", s));
    let mut s = minimal();
    s.preprocess_spec.std_bits = Some([1.0f32.to_bits(), 0.0f32.to_bits(), 1.0f32.to_bits()]);
    cases.push(("std", s));
    let mut s = minimal();
    s.preprocess_spec.input_size = 16;
    cases.push(("input_size", s));
    let mut s = minimal();
    s.categories_mode = "invented".to_string();
    cases.push(("categories_mode", s));
    for (label, spec) in cases {
        let err = spec.validate().expect_err(label);
        assert!(matches!(err, InferError::UnsupportedProfile(_)), "{label}: wrong error {err:?}");
    }
}

#[test]
fn a_negative_zero_std_is_still_zero() {
    let mut s = minimal();
    s.preprocess_spec.std_bits = Some([1.0f32.to_bits(), (-0.0f32).to_bits(), 1.0f32.to_bits()]);
    assert!(s.validate().is_err());
}

#[test]
fn file_names_that_escape_the_model_directory_are_rejected() {
    for bad in ["../model.onnx", "sub/model.onnx", "sub\\model.onnx", "", ".hidden", "a\nb.onnx"] {
        let mut s = minimal();
        s.model_file = bad.to_string();
        let err = s.validate().expect_err(bad);
        assert!(matches!(err, InferError::UnsupportedProfile(_)));
    }
    for bad in ["../selected_tags.csv", "d/selected_tags.csv"] {
        let mut s = minimal();
        s.tag_source = TagSourceSpec::csv_with_defaults(bad, Vec::new());
        let err = s.validate().expect_err(bad);
        assert!(matches!(err, InferError::UnsupportedProfile(_)));
    }
    for good in ["model.onnx", "selected_tags.csv", "camie-tagger-v2.onnx"] {
        let mut s = minimal();
        s.model_file = good.to_string();
        s.validate().expect("shipped names stay valid");
    }
}

#[test]
fn sigmoid_is_wanted_only_when_named() {
    let mut o = OutputSpec::none();
    assert!(!o.wants_sigmoid());
    o.activation = Some("sigmoid".to_string());
    assert!(o.wants_sigmoid());
    o.activation = Some("none".to_string());
    assert!(!o.wants_sigmoid());
}

#[test]
fn refusals_name_the_first_unsupported_setting() {
    let text = |s: &WdProfileSpec| match s.validate().unwrap_err() {
        InferError::UnsupportedProfile(m) => m,
        other => panic!("unexpected {other:?}"),
    };
    let mut s = minimal();
    s.preprocess_spec.layout = "NWHC".to_string();
    s.preprocess_spec.input_size = 16;
    assert_eq!(text(&s), "layout=NWHC not supported");
    let mut s = minimal();
    s.preprocess_spec.input_size = 4096;
    assert_eq!(text(&s), "input_size=4096 out of range [32,2048]");
    let mut s = minimal();
    s.preprocess_spec.std_bits = Some([0, 0, 0]);
    assert_eq!(text(&s), "preprocess_spec.std contains zero");
    let mut s = minimal();
    s.model_file = "../m.onnx".to_string();
    assert_eq!(text(&s), "model_file=\"../m.onnx\" is not a plain file name");
    let mut s = minimal();
    s.tag_source = TagSourceSpec::csv_with_defaults("d/t.csv", Vec::new());
    assert_eq!(text(&s), "tag_source.file=\"d/t.csv\" is not a plain file name");
}

#[test]
fn a_key_listed_twice_is_detected() {
    let mut s = minimal();
    s.default_thresholds.push(("general".into(), 0.5f32.to_bits()));
    s.default_thresholds.push(("meta".into(), 0.7f32.to_bits()));
    assert!(s.has_unique_keys());
    s.default_thresholds.push(("general".into(), 0.6f32.to_bits()));
    assert!(!s.has_unique_keys());
    let mut s = minimal();
    s.tag_source = TagSourceSpec::csv_with_defaults(
        "selected_tags.csv",
        vec![("0".to_string(), "general".to_string()), ("0".to_string(), "meta".to_string())],
    );
    assert!(!s.has_unique_keys());
}
