use yu_hailo_infer::device::{
    ActiveHandle, DeviceCtx, Discarded, GenAiDecision, GenAiKey, LlmKey, ResidentGenAi, TaskError, VlmKey,
};
use yu_hailo_infer::hailort::HailoRtError;

fn llm(path: &str) -> GenAiKey {
    GenAiKey::Llm(LlmKey { model_path: path.to_string(), lora_name: None, optimize_memory_on_device: false })
}

fn vlm(path: &str) -> GenAiKey {
    GenAiKey::Vlm(VlmKey { model_path: path.to_string(), optimize_memory_on_device: false })
}

/// What a device task does for a generative model: create it when needed,
/// then use it, or report the conflict.
fn request(ctx: &mut DeviceCtx, key: &GenAiKey) -> Result<(), HailoRtError> {
    match ctx.genai_decision(key) {
        GenAiDecision::Create => {
            ctx.genai_created(key);
            ctx.use_genai(key);
            Ok(())
        }
        GenAiDecision::Use => {
            ctx.use_genai(key);
            Ok(())
        }
        GenAiDecision::Conflict { requested, loaded } => Err(HailoRtError::GenAiConflict { requested, loaded }),
    }
}

#[test]
fn same_create_key_reuses_one_handle() {
    let mut ctx = DeviceCtx::new();
    assert!(matches!(ctx.genai_decision(&llm("a.hef")), GenAiDecision::Create));
    request(&mut ctx, &llm("a.hef")).unwrap();
    assert!(matches!(ctx.genai_decision(&llm("a.hef")), GenAiDecision::Use));
}

#[test]
fn create_keys_include_non_path_arguments() {
    let mut llm_ctx = DeviceCtx::new();
    request(&mut llm_ctx, &llm("same.hef")).unwrap();
    let with_lora = GenAiKey::Llm(LlmKey {
        model_path: "same.hef".to_string(),
        lora_name: Some("adapter".to_string()),
        optimize_memory_on_device: false,
    });
    assert!(matches!(request(&mut llm_ctx, &with_lora), Err(HailoRtError::GenAiConflict { .. })));
    let optimized = GenAiKey::Llm(LlmKey {
        model_path: "same.hef".to_string(),
        lora_name: None,
        optimize_memory_on_device: true,
    });
    assert!(matches!(request(&mut llm_ctx, &optimized), Err(HailoRtError::GenAiConflict { .. })));

    let mut vlm_ctx = DeviceCtx::new();
    request(&mut vlm_ctx, &vlm("same.hef")).unwrap();
    let vlm_optimized = GenAiKey::Vlm(VlmKey { model_path: "same.hef".to_string(), optimize_memory_on_device: true });
    assert!(matches!(request(&mut vlm_ctx, &vlm_optimized), Err(HailoRtError::GenAiConflict { .. })));
}

#[test]
fn infer_model_allows_two_different_hefs() {
    let mut ctx = DeviceCtx::new();
    ctx.use_infer_model("yolo.hef");
    ctx.use_infer_model("clip.hef");
    assert!(ctx.has_infer_model("yolo.hef"));
    assert!(ctx.has_infer_model("clip.hef"));
    ctx.use_infer_model("yolo.hef");
    assert!(ctx.has_infer_model("yolo.hef"));
}

#[test]
fn different_genai_hef_names_the_resident_hef() {
    let mut ctx = DeviceCtx::new();
    request(&mut ctx, &llm("resident.hef")).unwrap();
    assert!(matches!(
        ctx.genai_decision(&vlm("requested.hef")),
        GenAiDecision::Conflict { ref requested, ref loaded } if requested == "requested.hef" && loaded == "resident.hef"
    ));
    let error = match request(&mut ctx, &vlm("requested.hef")) {
        Ok(_) => panic!("expected a conflicting GenAI HEF error"),
        Err(error) => error,
    };
    assert!(matches!(
        &error,
        HailoRtError::GenAiConflict { loaded, requested } if loaded == "resident.hef" && requested == "requested.hef"
    ));
    assert!(error.message().contains("resident.hef"));
    // No VLM was created: the resident model is still the one in use.
    assert!(matches!(ctx.genai_decision(&llm("resident.hef")), GenAiDecision::Use));
    assert_eq!(TaskError::HailoRt(error).status_code(), 409);
}

#[test]
fn speech2text_is_never_cached() {
    let mut ctx = DeviceCtx::new();
    request(&mut ctx, &llm("chat.hef")).unwrap();
    ctx.use_infer_model("yolo.hef");
    for _ in 0..2 {
        ctx.begin_task().unwrap();
        ctx.use_speech2text();
        // Nothing resident is active, so a panic now drops nothing.
        assert_eq!(ctx.discard_active_after_panic(), (TaskError::Panicked, None));
    }
    assert!(!ctx.has_infer_model("speech.hef"));
    assert!(ctx.has_infer_model("yolo.hef"));
    assert!(matches!(ctx.genai_decision(&llm("chat.hef")), GenAiDecision::Use));
}

#[test]
fn panic_discards_the_active_handle() {
    let mut ctx = DeviceCtx::new();
    ctx.begin_task().unwrap();
    ctx.use_infer_model("yolo.hef");
    let (err, dropped) = ctx.discard_active_after_panic();
    assert_eq!(err, TaskError::Panicked);
    assert_eq!(dropped, Some(Discarded::InferModel("yolo.hef".to_string())));
    assert!(!ctx.has_infer_model("yolo.hef"));

    ctx.begin_task().unwrap();
    request(&mut ctx, &llm("llm.hef")).unwrap();
    let (err, dropped) = ctx.discard_active_after_panic();
    assert_eq!(err, TaskError::Panicked);
    assert_eq!(dropped, Some(Discarded::GenAi));
    assert!(matches!(ctx.genai_decision(&vlm("vlm.hef")), GenAiDecision::Create));
}

#[test]
fn panic_discard_cap_degrades_without_dropping_another_handle() {
    let mut ctx = DeviceCtx::new();
    for _ in 0..3 {
        ctx.begin_task().unwrap();
        ctx.use_infer_model("yolo.hef");
        assert_eq!(ctx.discard_active_after_panic().0, TaskError::Panicked);
    }
    ctx.begin_task().unwrap();
    ctx.use_infer_model("yolo.hef");
    let (err, dropped) = ctx.discard_active_after_panic();
    assert_eq!(err.status_code(), 503);
    assert_eq!(dropped, None);
    assert!(ctx.has_infer_model("yolo.hef"));
    let refused = ctx.begin_task().unwrap_err();
    assert_eq!(refused.status_code(), 503);
    assert_eq!(
        refused.message(),
        "HailoRT handle discard limit reached; reboot required before further inference"
    );
}

#[test]
fn a_panic_with_no_active_handle_drops_nothing() {
    let mut ctx = DeviceCtx::new();
    ctx.use_infer_model("yolo.hef");
    ctx.end_task();
    assert_eq!(ctx.discard_active_after_panic(), (TaskError::Panicked, None));
    assert!(ctx.has_infer_model("yolo.hef"));
}

#[test]
fn resident_genai_reports_its_hef_and_matches_its_own_key_only() {
    let resident = ResidentGenAi::Llm {
        key: LlmKey { model_path: "llm.hef".to_string(), lora_name: None, optimize_memory_on_device: false },
    };
    assert_eq!(resident.hef_path(), "llm.hef");
    assert!(resident.matches_active(&ActiveHandle::Llm(LlmKey {
        model_path: "llm.hef".to_string(),
        lora_name: None,
        optimize_memory_on_device: false,
    })));
    assert!(!resident.matches_active(&ActiveHandle::InferModel("llm.hef".to_string())));
    assert!(!resident.matches_active(&ActiveHandle::Vlm(VlmKey {
        model_path: "llm.hef".to_string(),
        optimize_memory_on_device: false,
    })));
}

#[test]
fn task_errors_map_to_http_statuses() {
    assert_eq!(TaskError::Panicked.status_code(), 400);
    assert_eq!(TaskError::Unavailable("x".into()).status_code(), 503);
    assert_eq!(TaskError::HailoRt(HailoRtError::status("run", 1)).status_code(), 400);
    assert_eq!(TaskError::Panicked.message(), "HailoRT task panicked");
}
