use yu_hailo_infer::error::InferError;
use yu_hailo_infer::json::JsonValue;
use yu_hailo_infer::profile::TagSourceSpec;
use yu_hailo_infer::tags::{
    check_metadata_size, csv_records_to_pairs, default_category_map, load_tags, metadata_text, tag_meta_from_rows, validate_caps, TagDocument,
};

fn csv_spec(category_map: &[(&str, &str)]) -> TagSourceSpec {
    TagSourceSpec::Csv {
        file: "selected_tags.csv".to_string(),
        delimiter: ",".to_string(),
        name_col: "name".to_string(),
        category_col: "category".to_string(),
        category_map: category_map.iter().map(|(k, v)| (k.to_string(), v.to_string())).collect(),
    }
}

fn json_spec() -> TagSourceSpec {
    TagSourceSpec::JsonDict {
        file: "meta.json".to_string(),
        container_key: Some("dataset_info.tag_mapping".to_string()),
        idx_to_tag_key: "idx_to_tag".to_string(),
        tag_to_category_key: "tag_to_category".to_string(),
    }
}

fn s(v: &str) -> JsonValue {
    JsonValue::Str(v.to_string())
}

fn obj(entries: Vec<(&str, JsonValue)>) -> JsonValue {
    JsonValue::Object(entries.into_iter().map(|(k, v)| (k.to_string(), v)).collect(), "{}".to_string())
}

fn doc(idx_to_tag: Vec<(&str, JsonValue)>, tag_to_category: Vec<(&str, JsonValue)>) -> TagDocument {
    TagDocument::Json(obj(vec![(
        "dataset_info",
        obj(vec![(
            "tag_mapping",
            obj(vec![("idx_to_tag", obj(idx_to_tag)), ("tag_to_category", obj(tag_to_category))]),
        )]),
    )]))
}

fn pairs(v: &[(&str, &str)]) -> Vec<(String, String)> {
    v.iter().map(|(a, b)| (a.to_string(), b.to_string())).collect()
}

#[test]
fn csv_maps_categories_and_records_rating_positions() {
    let bytes = b"tag_id,name,category,count\n0,a,0\n1,r,9\n2,c,4\n".to_vec();
    let meta = load_tags(
        &TagDocument::Csv(bytes),
        &csv_spec(&[("0", "general"), ("4", "character"), ("9", "rating")]),
        "from_tag_source",
        &Vec::new(),
    )
    .unwrap();
    assert_eq!(meta.tags, pairs(&[("a", "general"), ("r", "rating"), ("c", "character")]));
    assert_eq!(meta.rating_indices, vec![1]);
}

#[test]
fn csv_leaves_an_unmapped_category_as_its_raw_value() {
    let bytes = b"tag_id,name,category\n0,a,0\n1,b,7\n".to_vec();
    let meta = load_tags(&TagDocument::Csv(bytes), &csv_spec(&[("0", "general")]), "from_tag_source", &Vec::new())
        .unwrap();
    assert_eq!(meta.tags[1], ("b".to_string(), "7".to_string()));
}

#[test]
fn csv_honours_non_default_column_names() {
    let bytes = b"label;kind\nfoo;0\nbar;9\n".to_vec();
    let spec = TagSourceSpec::Csv {
        file: "selected_tags.csv".to_string(),
        delimiter: ";".to_string(),
        name_col: "label".to_string(),
        category_col: "kind".to_string(),
        category_map: pairs(&[("0", "general"), ("9", "rating")]),
    };
    let meta = load_tags(&TagDocument::Csv(bytes), &spec, "from_tag_source", &Vec::new()).unwrap();
    assert_eq!(meta.tags[0].0, "foo");
    assert_eq!(meta.rating_indices, vec![1]);
}

#[test]
fn csv_missing_columns_read_as_empty_text() {
    let bytes = b"a,b\n1,2\n".to_vec();
    let meta = load_tags(&TagDocument::Csv(bytes), &csv_spec(&[]), "from_tag_source", &Vec::new()).unwrap();
    assert_eq!(meta.tags, pairs(&[("", "")]));
}

#[test]
fn csv_delimiter_must_be_one_byte() {
    let mut spec = csv_spec(&[]);
    if let TagSourceSpec::Csv { delimiter, .. } = &mut spec {
        *delimiter = ";;".to_string();
    }
    let err = load_tags(&TagDocument::Csv(b"name\na\n".to_vec()), &spec, "from_tag_source", &Vec::new()).unwrap_err();
    assert!(matches!(err, InferError::TagMetadata(_)), "{err:?}");
}

#[test]
fn json_dict_orders_by_integer_key_not_lexicographically() {
    let d = doc(
        vec![("0", s("t0")), ("2", s("t2")), ("10", s("t10"))],
        vec![("t0", s("general")), ("t2", s("general")), ("t10", s("rating"))],
    );
    let meta = load_tags(&d, &json_spec(), "from_tag_source", &Vec::new()).unwrap();
    assert_eq!(meta.tags.iter().map(|(t, _)| t.as_str()).collect::<Vec<_>>(), vec!["t0", "t2", "t10"]);
    assert_eq!(meta.rating_indices, vec![2]);
}

#[test]
fn json_dict_rejects_a_category_outside_supports_categories() {
    let d = doc(vec![("0", s("t0"))], vec![("t0", s("invented"))]);
    let err = load_tags(&d, &json_spec(), "from_tag_source", &vec!["general".to_string()]).unwrap_err();
    assert!(matches!(err, InferError::TagMetadata(_)), "{err:?}");
}

#[test]
fn json_dict_rejects_a_tag_with_no_category_entry() {
    let d = doc(vec![("0", s("t0")), ("1", s("orphan"))], vec![("t0", s("general"))]);
    let err = load_tags(&d, &json_spec(), "from_tag_source", &Vec::new()).unwrap_err();
    assert!(matches!(err, InferError::TagMetadata(_)), "{err:?}");
}

#[test]
fn json_dict_rejects_a_missing_container_segment() {
    let d = TagDocument::Json(obj(vec![("dataset_info", obj(vec![]))]));
    let err = load_tags(&d, &json_spec(), "from_tag_source", &Vec::new()).unwrap_err();
    assert!(matches!(err, InferError::TagMetadata(_)), "{err:?}");
}

#[test]
fn duplicate_json_keys_are_rejected_as_python_rejects_them() {
    let d = doc(
        vec![("0", s("t0")), ("0", s("shadowed"))],
        vec![("t0", s("general")), ("shadowed", s("general"))],
    );
    let err = load_tags(&d, &json_spec(), "from_tag_source", &Vec::new()).unwrap_err();
    assert!(matches!(err, InferError::TagMetadata(_)), "{err:?}");
}

#[test]
fn all_general_mode_rewrites_every_category_and_clears_ratings() {
    let d = doc(vec![("0", s("t0")), ("1", s("t1"))], vec![("t0", s("general")), ("t1", s("rating"))]);
    let meta = load_tags(&d, &json_spec(), "all_general", &Vec::new()).unwrap();
    assert!(meta.tags.iter().all(|(_, c)| c == "general"));
    assert!(meta.rating_indices.is_empty());
}

#[test]
fn a_utf8_bom_does_not_break_the_json_reader() {
    let text = metadata_text("\u{feff}{\"a\":1}".as_bytes(), "meta.json").unwrap();
    assert_eq!(text, "{\"a\":1}");
    let plain = metadata_text(b"{}", "meta.json").unwrap();
    assert_eq!(plain, "{}");
}

#[test]
fn metadata_that_is_not_utf8_is_refused() {
    let err = metadata_text(&[0xff, 0xfe, 0x00], "meta.json").unwrap_err();
    assert!(matches!(err, InferError::TagMetadata(_)));
}

#[test]
fn metadata_larger_than_the_cap_is_refused_before_reading() {
    assert!(check_metadata_size(32 * 1024 * 1024, "meta.json").is_ok());
    assert!(matches!(check_metadata_size(32 * 1024 * 1024 + 1, "meta.json"), Err(InferError::TagMetadata(_))));
}

#[test]
fn equal_integer_keys_are_ordered_by_key_text() {
    let d = doc(
        vec![("01", s("b")), ("1", s("a")), ("-1", s("c"))],
        vec![("a", s("general")), ("b", s("general")), ("c", s("general"))],
    );
    let meta = load_tags(&d, &json_spec(), "from_tag_source", &Vec::new()).unwrap();
    assert_eq!(meta.tags.iter().map(|(t, _)| t.as_str()).collect::<Vec<_>>(), vec!["c", "b", "a"]);
}

#[test]
fn a_non_string_tag_reads_as_its_json_text() {
    let d = doc(
        vec![("0", JsonValue::Number("42".to_string()))],
        vec![("42", s("general"))],
    );
    let meta = load_tags(&d, &json_spec(), "from_tag_source", &Vec::new()).unwrap();
    assert_eq!(meta.tags, pairs(&[("42", "general")]));
}

#[test]
fn keys_that_are_not_integers_are_refused() {
    let d = doc(vec![("zero", s("t0"))], vec![("t0", s("general"))]);
    assert!(matches!(load_tags(&d, &json_spec(), "from_tag_source", &Vec::new()), Err(InferError::TagMetadata(_))));
}

#[test]
fn a_document_of_the_other_kind_is_refused() {
    let err = load_tags(&TagDocument::Csv(b"name\n".to_vec()), &json_spec(), "from_tag_source", &Vec::new()).unwrap_err();
    assert!(matches!(err, InferError::TagMetadata(_)));
}

#[test]
fn caps_limit_tag_length_in_bytes() {
    let ok = vec![("a".repeat(256), "general".to_string())];
    assert!(validate_caps(&ok, "ctx").is_ok());
    let long = vec![("é".repeat(129), "general".to_string())];
    assert!(matches!(validate_caps(&long, "ctx"), Err(InferError::TagMetadata(_))));
}

#[test]
fn rows_map_category_codes_and_record_rating_positions() {
    let map = default_category_map();
    assert_eq!(map.len(), 6);
    assert_eq!(map[5], (9, "rating".to_string()));
    let rows = vec![
        ("general".to_string(), 9),
        ("1girl".to_string(), 0),
        ("hatsune_miku".to_string(), 4),
        ("odd".to_string(), 42),
        ("explicit".to_string(), 9),
    ];
    let meta = tag_meta_from_rows(&rows, &map);
    assert_eq!(meta.tags[0], ("general".to_string(), "rating".to_string()));
    assert_eq!(meta.tags[2].1, "character");
    assert_eq!(meta.tags[3].1, "general");
    assert_eq!(meta.rating_indices, vec![0, 4]);
}

fn message(err: InferError) -> String {
    match err {
        InferError::TagMetadata(m) => m,
        other => panic!("unexpected {other:?}"),
    }
}

#[test]
fn json_dict_refusals_name_what_failed() {
    let d = doc(vec![("0", s("t0"))], vec![("t0", s("invented"))]);
    let supports = vec!["general".to_string(), "character".to_string()];
    let err = load_tags(&d, &json_spec(), "from_tag_source", &supports).unwrap_err();
    assert_eq!(
        message(err),
        "tag_to_category value \"invented\" not in supports_categories [\"general\", \"character\"]"
    );
    let d = doc(vec![("0", s("t0")), ("1", s("orphan"))], vec![("t0", s("general"))]);
    let err = load_tags(&d, &json_spec(), "from_tag_source", &Vec::new()).unwrap_err();
    assert_eq!(message(err), "tag_to_category missing entry for tag \"orphan\"");
    let d = TagDocument::Json(obj(vec![("dataset_info", obj(vec![]))]));
    let err = load_tags(&d, &json_spec(), "from_tag_source", &Vec::new()).unwrap_err();
    assert_eq!(
        message(err),
        "tag_source.container_key=\"dataset_info.tag_mapping\": missing segment \"tag_mapping\""
    );
}

#[test]
fn the_first_failing_key_in_text_order_is_named() {
    let d = doc(vec![("zeta", s("a")), ("alpha", s("b")), ("3", s("c"))], vec![]);
    let err = load_tags(&d, &json_spec(), "from_tag_source", &Vec::new()).unwrap_err();
    assert_eq!(message(err), "\"idx_to_tag\": keys must be int-castable strings, got \"alpha\"");
}

#[test]
fn category_refusals_follow_vocabulary_order() {
    let d = doc(vec![("5", s("late")), ("1", s("early"))], vec![]);
    let err = load_tags(&d, &json_spec(), "from_tag_source", &Vec::new()).unwrap_err();
    assert_eq!(message(err), "tag_to_category missing entry for tag \"early\"");
}

#[test]
fn cap_and_size_refusals_carry_the_numbers() {
    let long = vec![("é".repeat(129), "general".to_string())];
    assert_eq!(message(validate_caps(&long, "ctx").unwrap_err()), "ctx contains tag of length 258 exceeding 256");
    assert_eq!(
        message(check_metadata_size(33554433, "meta.json").unwrap_err()),
        "meta.json exceeds 33554432 bytes (33554433)"
    );
    assert_eq!(
        message(metadata_text(&[0xff], "meta.json").unwrap_err()),
        "meta.json not UTF-8: invalid utf-8 sequence of 1 bytes from index 0"
    );
    let mut spec = csv_spec(&[]);
    if let TagSourceSpec::Csv { delimiter, .. } = &mut spec {
        *delimiter = ";;".to_string();
    }
    let err = load_tags(&TagDocument::Csv(b"name\na\n".to_vec()), &spec, "from_tag_source", &Vec::new()).unwrap_err();
    assert_eq!(message(err), "tag_source.delimiter must be one byte, got \";;\"");
}

#[test]
fn read_records_become_name_category_pairs() {
    let headers = vec!["tag_id".to_string(), "name".to_string(), "category".to_string()];
    let records = vec![
        vec!["0".to_string(), "a".to_string(), "0".to_string()],
        vec!["1".to_string(), "b".to_string(), "7".to_string()],
        vec!["2".to_string()],
    ];
    let map = pairs(&[("0", "general")]);
    assert_eq!(
        csv_records_to_pairs(&headers, &records, "name", "category", &map),
        pairs(&[("a", "general"), ("b", "7"), ("", "")])
    );
    assert_eq!(csv_records_to_pairs(&headers, &records, "missing", "category", &map)[0], ("".to_string(), "general".to_string()));
}
