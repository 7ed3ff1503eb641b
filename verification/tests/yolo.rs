use yu_hailo_infer::order::order_by_key_desc;
use yu_hailo_infer::yolo::{classwise_nms, is_nms_output, nms, total_order_key, validate_yolo_outputs, OutputInfo};

fn float_output(name: &str, shape: [usize; 3], values: usize) -> OutputInfo {
    OutputInfo { name: name.to_string(), is_float32: true, shape, format_type: 3, data_len: values * 4 }
}

fn iou(a: [f64; 4], b: [f64; 4]) -> f64 {
    let x1 = a[0].max(b[0]);
    let y1 = a[1].max(b[1]);
    let x2 = a[2].min(b[2]);
    let y2 = a[3].min(b[3]);
    let intersection = (x2 - x1).max(0.0) * (y2 - y1).max(0.0);
    let area_a = (a[2] - a[0]) * (a[3] - a[1]);
    let area_b = (b[2] - b[0]) * (b[3] - b[1]);
    intersection / (area_a + area_b - intersection + 1e-6)
}

fn keys(scores: &[f64]) -> Vec<u64> {
    scores.iter().map(|s| total_order_key(s.to_bits())).collect()
}

fn table(boxes: &[[f64; 4]], threshold: f64) -> Vec<Vec<bool>> {
    boxes.iter().map(|a| boxes.iter().map(|b| iou(*a, *b) > threshold).collect()).collect()
}

fn run_nms(boxes: &[[f64; 4]], scores: &[f64], threshold: f64) -> Vec<usize> {
    nms(&keys(scores), &table(boxes, threshold))
}

#[test]
fn nms_removes_overlapping_lower_score_box() {
    let boxes = vec![[0.0, 0.0, 10.0, 10.0], [1.0, 1.0, 11.0, 11.0]];
    let scores = vec![0.9, 0.5];
    assert_eq!(run_nms(&boxes, &scores, 0.45), vec![0]);
}

#[test]
fn nms_keeps_non_overlapping_boxes() {
    let boxes = vec![[0.0, 0.0, 10.0, 10.0], [100.0, 100.0, 110.0, 110.0]];
    let scores = vec![0.9, 0.8];
    assert_eq!(run_nms(&boxes, &scores, 0.45).len(), 2);
}

#[test]
fn nms_empty_input_returns_empty() {
    assert!(nms(&Vec::new(), &Vec::new()).is_empty());
}

#[test]
fn nms_takes_higher_scores_first_and_breaks_ties_by_later_index() {
    let boxes = vec![[0.0, 0.0, 10.0, 10.0], [50.0, 50.0, 60.0, 60.0], [100.0, 100.0, 110.0, 110.0]];
    let scores = vec![0.5, 0.9, 0.5];
    assert_eq!(run_nms(&boxes, &scores, 0.45), vec![1, 2, 0]);
}

#[test]
fn nms_a_suppressed_box_suppresses_nothing() {
    // 0 suppresses 1, 1 would suppress 2, but 1 is gone, so 2 stays.
    let boxes = vec![[0.0, 0.0, 10.0, 10.0], [4.0, 0.0, 14.0, 10.0], [8.0, 0.0, 18.0, 10.0]];
    let scores = vec![0.9, 0.8, 0.7];
    assert_eq!(run_nms(&boxes, &scores, 0.3), vec![0, 2]);
}

#[test]
fn classwise_nms_runs_per_class_in_ascending_class_order() {
    let boxes = vec![[0.0, 0.0, 10.0, 10.0], [1.0, 1.0, 11.0, 11.0], [0.0, 0.0, 10.0, 10.0]];
    let scores = vec![0.6, 0.9, 0.8];
    let classes = vec![5u32, 5, 2];
    assert_eq!(classwise_nms(&classes, &keys(&scores), &table(&boxes, 0.45)), vec![2, 1]);
}

#[test]
fn total_order_key_orders_like_total_cmp() {
    let values = [f64::NEG_INFINITY, -2.5, -0.0, 0.0, 1e-300, 0.25, 7.0, f64::INFINITY];
    for a in values {
        for b in values {
            assert_eq!(
                total_order_key(a.to_bits()).cmp(&total_order_key(b.to_bits())),
                a.total_cmp(&b),
                "{a} vs {b}"
            );
        }
    }
}

#[test]
fn detections_sort_by_confidence_desc_keeping_ties_in_order() {
    let confidences = [0.5f64, 0.9, 0.5, 0.7];
    let k: Vec<u64> = confidences.iter().map(|c| total_order_key(c.to_bits())).collect();
    assert_eq!(order_by_key_desc(&k, false), vec![1, 3, 0, 2]);
}

#[test]
fn is_nms_output_true_only_for_single_float32_nms_named_output() {
    let output = float_output("postprocess_NMS", [1, 1, 6], 6);
    assert!(is_nms_output(&vec![output.clone()]));
    assert!(!is_nms_output(&vec![output.clone(), output.clone()]));
    let mut integer = output;
    integer.is_float32 = false;
    assert!(!is_nms_output(&vec![integer]));
}

#[test]
fn validation_rejects_unsupported_format_type() {
    let mut output = float_output("head", [1, 1, 5], 5);
    output.format_type = 2;
    let error = validate_yolo_outputs(&vec![output]).unwrap_err();
    assert!(error.contains("unsupported format_type"), "{error}");
}

#[test]
fn validation_rejects_grid_length_mismatch() {
    let output = OutputInfo { name: "head".to_string(), is_float32: false, shape: [1, 1, 5], format_type: 1, data_len: 2 };
    let error = validate_yolo_outputs(&vec![output]).unwrap_err();
    assert!(error.contains("does not match shape"), "{error}");
    assert!(error.contains("[1, 1, 5]"), "{error}");
}

#[test]
fn validation_accepts_nms_with_bogus_shape_and_rejects_partial_row() {
    let output = float_output("nms", [80, 100, 8000], 6);
    assert!(validate_yolo_outputs(&vec![output]).is_ok());
    let output = OutputInfo { name: "nms".to_string(), is_float32: true, shape: [80, 100, 8000], format_type: 3, data_len: 23 };
    assert!(validate_yolo_outputs(&vec![output]).unwrap_err().contains("multiple of 24"));
}

#[test]
fn validation_rejects_an_empty_response() {
    assert!(validate_yolo_outputs(&Vec::new()).unwrap_err().contains("no output tensors"));
}

#[test]
fn validation_accepts_matching_grid_outputs() {
    let a = float_output("head_a", [2, 2, 5], 20);
    let b = OutputInfo { name: "head_b".to_string(), is_float32: false, shape: [1, 1, 5], format_type: 1, data_len: 5 };
    assert!(validate_yolo_outputs(&vec![a, b]).is_ok());
}

#[test]
fn output_refusals_name_the_first_failing_output() {
    let grid = OutputInfo { name: "head".to_string(), is_float32: true, shape: [2, 2, 3], format_type: 3, data_len: 40 };
    assert_eq!(
        validate_yolo_outputs(&vec![grid]).unwrap_err(),
        "yu-infer output 'head' data length 40 does not match shape [2, 2, 3] (expected 48 bytes)"
    );
    let u16_out = OutputInfo { name: "x".to_string(), is_float32: false, shape: [1, 1, 1], format_type: 2, data_len: 2 };
    assert_eq!(validate_yolo_outputs(&vec![u16_out]).unwrap_err(), "yu-infer output 'x' has unsupported format_type 2");
    let nms = OutputInfo { name: "yolov8/NMS".to_string(), is_float32: true, shape: [0, 0, 0], format_type: 3, data_len: 25 };
    assert_eq!(
        validate_yolo_outputs(&vec![nms]).unwrap_err(),
        "yu-infer NMS output 'yolov8/NMS' data length 25 is not a multiple of 24 f32 bytes"
    );
    assert_eq!(validate_yolo_outputs(&vec![]).unwrap_err(), "yu-infer response contained no output tensors");
}
