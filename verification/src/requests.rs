//! The sidecar's request rules: who may call, which paths and model ids are
//! acceptable, where default HEF files live, and the size and count limits
//! each endpoint enforces before touching the device.
use vstd::prelude::*;
use vstd::utf8::encode_utf8;
use crate::model_dir::{joined_path, path_join};
use crate::text::{decimal, has_char, has_double_dot, str_has_char, str_has_double_dot, text_is};

verus! {

/// Largest accepted `text`, in bytes.
pub const MAX_TEXT_BYTES: usize = 16384;

/// Largest accepted prompt (or combined chat content), in bytes.
pub const MAX_PROMPT_BYTES: usize = 16384;

/// Largest accepted per-read timeout, in milliseconds.
pub const MAX_TIMEOUT_MS: u32 = 120000;

/// Timeout used when the request names none, in milliseconds.
pub const DEFAULT_TIMEOUT_MS: u32 = 30000;

/// Most image frames one VLM request may carry.
pub const MAX_FRAMES: usize = 8;

/// Largest accepted base64 text of one frame, in bytes.
pub const MAX_FRAME_BASE64_BYTES: usize = 8388608;

/// Largest accepted `max_generated_tokens` for a VLM request.
pub const MAX_VLM_GENERATED_TOKENS: u32 = 4096;

/// Largest accepted `max_generated_tokens` for an LLM request.
pub const MAX_LLM_GENERATED_TOKENS: u32 = 4096;

/// Most stream reads one generation may take.
pub const MAX_STREAM_READS: usize = 8192;

/// Most chat turns one LLM request may carry.
pub const MAX_LLM_MESSAGES: usize = 256;

/// Most tool definitions one LLM request may carry.
pub const MAX_LLM_TOOLS: usize = 64;

/// Bytes one media preprocessing permit stands for (1 MiB).
pub const MEDIA_PREPROCESSING_PERMIT_BYTES: u64 = 1048576;

/// The process-wide media preprocessing budget, in bytes (256 MiB).
pub const MAX_MEDIA_PREPROCESSING_BYTES: u64 = 268435456;

/// What one image request reserves from that budget, in bytes (96 MiB).
pub const MAX_IMAGE_PREPROCESSING_RESERVATION_BYTES: u64 = 100663296;

/// A refused request: the HTTP status, the error code and the message.
#[derive(Debug, Clone, PartialEq, Eq)]
pub struct ApiRejection {
    pub status: u16,
    pub code: String,
    pub message: String,
}

/// The rejection with this status, code and message.
pub open spec fn rejected(r: ApiRejection, status: u16, code: &str, message: Seq<char>) -> bool {
    r.status == status && r.code@ == code@ && r.message@ == message
}

/// `r` is that rejection.
pub open spec fn err_with(r: Result<(), ApiRejection>, status: u16, code: &str, message: Seq<char>) -> bool {
    r matches Err(x) && rejected(x, status, code, message)
}

/// `r` holds that rejection.
pub open spec fn some_with(r: Option<ApiRejection>, status: u16, code: &str, message: Seq<char>) -> bool {
    r matches Some(x) && rejected(x, status, code, message)
}

fn reject(status: u16, code: &str, message: &str) -> (r: ApiRejection)
    ensures
        r.status == status,
        r.code@ == code@,
        r.message@ == message@,
{
    ApiRejection { status, code: String::from_str(code), message: String::from_str(message) }
}

/// Whether `provided` equals `expected`, compared character by character
/// over the shorter length without stopping at the first difference.
pub fn verify_token(provided: &str, expected: &str) -> (r: bool)
    ensures
        r == (provided@ == expected@),
{
    let a = crate::text::chars_of(provided);
    let b = crate::text::chars_of(expected);
    let mut same = a.len() == b.len();
    let n = if a.len() < b.len() {
        a.len()
    } else {
        b.len()
    };
    let mut i: usize = 0;
    while i < n
        invariant
            a@ == provided@,
            b@ == expected@,
            n <= a@.len(),
            n <= b@.len(),
            n == a@.len() || n == b@.len(),
            i <= n,
            same == (a@.len() == b@.len() && forall|j: int| 0 <= j < i ==> a@[j] == b@[j]),
        decreases n - i,
    {
        if a[i] != b[i] {
            same = false;
        }
        i = i + 1;
    }
    proof {
        if same {
            assert(a@ =~= b@);
        }
    }
    same
}

/// The credential of an `Authorization` header: the text after `Bearer `.
pub open spec fn bearer_token(header: Seq<char>) -> Option<Seq<char>> {
    if header.len() >= 7 && header.take(7) == "Bearer "@ {
        Some(header.skip(7))
    } else {
        None
    }
}

/// Whether the `Authorization` header (as text, when it is valid header
/// text) carries `Bearer ` followed by exactly the configured token.
pub fn check_auth(authorization: Option<&str>, auth_token: &str) -> (r: bool)
    ensures
        r == (authorization matches Some(h) && bearer_token(h@) == Some(auth_token@)),
{
    let h = match authorization {
        Some(h) => h,
        None => {
            return false;
        },
    };
    let cs = crate::text::chars_of(h);
    proof {
        reveal_strlit("Bearer ");
    }
    if cs.len() < 7 {
        return false;
    }
    let prefix = crate::text::chars_of("Bearer ");
    proof {
        assert("Bearer "@.len() == 7);
    }
    let mut i: usize = 0;
    while i < 7
        invariant
            cs@ == h@,
            prefix@ == "Bearer "@,
            prefix@.len() == 7,
            authorization == Some(h),
            cs@.len() >= 7,
            i <= 7,
            forall|j: int| 0 <= j < i ==> cs@[j] == prefix@[j],
        decreases 7 - i,
    {
        if cs[i] != prefix[i] {
            proof {
                assert(h@.take(7)[i as int] != "Bearer "@[i as int]);
            }
            return false;
        }
        i = i + 1;
    }
    proof {
        assert(h@.take(7) =~= "Bearer "@);
    }
    let mut rest: Vec<char> = Vec::new();
    let mut k: usize = 7;
    while k < cs.len()
        invariant
            cs@ == h@,
            7 <= k <= cs@.len(),
            rest@ == cs@.subrange(7, k as int),
        decreases cs@.len() - k,
    {
        rest.push(cs[k]);
        proof {
            assert(cs@.subrange(7, k + 1) =~= cs@.subrange(7, k as int).push(cs@[k as int]));
        }
        k = k + 1;
    }
    proof {
        assert(cs@.subrange(7, cs@.len() as int) =~= h@.skip(7));
    }
    let token = crate::text::string_of_chars(&rest);
    verify_token(token.as_str(), auth_token)
}

/// Whether `path` starts with `base` component by component, as
/// `std::path::Path::starts_with` decides.
pub uninterp spec fn path_starts_with_spec(path: Seq<char>, base: Seq<char>) -> bool;

/// `std::path::Path::new(path).starts_with(base)`.
/// Trusted: the answer is `path_starts_with_spec` of the two texts.
#[verifier::external_body]
fn path_starts_with(path: &str, base: &str) -> (r: bool)
    ensures
        r == path_starts_with_spec(path@, base@),
{
    std::path::Path::new(path).starts_with(base)
}

/// Whether a canonical path lies under one of the scan roots; with no roots,
/// nothing does.
pub fn check_scan_roots(scan_roots: &Vec<String>, real_path: &str) -> (r: bool)
    ensures
        r == (scan_roots@.len() > 0 && exists|i: int|
            0 <= i < scan_roots@.len() && path_starts_with_spec(real_path@, #[trigger] scan_roots@[i]@)),
{
    if scan_roots.len() == 0 {
        return false;
    }
    let mut i: usize = 0;
    while i < scan_roots.len()
        invariant
            i <= scan_roots@.len(),
            forall|j: int| 0 <= j < i ==> !path_starts_with_spec(real_path@, #[trigger] scan_roots@[j]@),
        decreases scan_roots@.len() - i,
    {
        if path_starts_with(real_path, scan_roots[i].as_str()) {
            return true;
        }
        i = i + 1;
    }
    false
}

/// A model id names one directory: no `/`, no `\` and no `..`.
pub open spec fn model_id_ok(model_id: Seq<char>) -> bool {
    !has_char(model_id, '/') && !has_char(model_id, '\\') && !has_double_dot(model_id)
}

/// Whether `model_id` can be joined to the cache directory safely.
pub fn check_model_id(model_id: &str) -> (r: bool)
    ensures
        r == model_id_ok(model_id@),
{
    !(str_has_char(model_id, '/') || str_has_char(model_id, '\\') || str_has_double_dot(model_id))
}

/// Home directory used when `HOME` is unset.
pub open spec fn home_or_default(home: Option<Seq<char>>) -> Seq<char> {
    match home {
        Some(h) => h,
        None => "/home/pi"@,
    }
}

/// The optional text's characters.
pub open spec fn opt_view(s: Option<&str>) -> Option<Seq<char>> {
    match s {
        Some(v) => Some(v@),
        None => None,
    }
}

/// The path an environment variable names, or `<home>/hailo_models/<name>`.
pub open spec fn env_or_default(env_value: Option<Seq<char>>, home: Option<Seq<char>>, default_name: Seq<char>) -> Seq<char> {
    match env_value {
        Some(v) => v,
        None => joined_path(joined_path(home_or_default(home), "hailo_models"@), default_name),
    }
}

/// The value of an environment variable if set, else the default model
/// location under the home directory (`/home/pi` when `HOME` is unset).
pub fn env_or_default_path(env_value: Option<&str>, home: Option<&str>, default_name: &str) -> (r: String)
    ensures
        r@ == env_or_default(opt_view(env_value), opt_view(home), default_name@),
{
    match env_value {
        Some(v) => String::from_str(v),
        None => {
            proof {
                reveal_strlit("/home/pi");
            }
            let h = match home {
                Some(h) => String::from_str(h),
                None => String::from_str("/home/pi"),
            };
            let models = path_join(h.as_str(), "hailo_models");
            path_join(models.as_str(), default_name)
        },
    }
}

/// The HEF a request names, or the default one.
pub open spec fn hef_or_default(
    requested: Option<Seq<char>>,
    env_value: Option<Seq<char>>,
    home: Option<Seq<char>>,
    default_name: Seq<char>,
) -> Seq<char> {
    match requested {
        Some(p) => p,
        None => env_or_default(env_value, home, default_name),
    }
}

fn hef_path_or(requested: Option<&str>, env_value: Option<&str>, home: Option<&str>, default_name: &str) -> (r: String)
    ensures
        r@ == hef_or_default(opt_view(requested), opt_view(env_value), opt_view(home), default_name@),
{
    match requested {
        Some(p) => String::from_str(p),
        None => env_or_default_path(env_value, home, default_name),
    }
}

/// The YOLO HEF: the query's, else `HAILO_YOLO_HEF`, else `yolov8n.hef`.
pub fn yolo_hef_path(query: &HefQuery, env_value: Option<&str>, home: Option<&str>) -> (r: String)
    ensures
        r@ == hef_or_default(match query.hef_path {
            Some(p) => Some(p@),
            None => None,
        }, opt_view(env_value), opt_view(home), "yolov8n.hef"@),
{
    let requested: Option<&str> = match &query.hef_path {
        Some(p) => Some(p.as_str()),
        None => None,
    };
    hef_path_or(requested, env_value, home, "yolov8n.hef")
}

/// The speech-to-text HEF: the request's, else `HAILO_S2T_HEF`, else
/// `Whisper-Tiny.hef`.
pub fn s2t_hef_path(path: Option<&str>, env_value: Option<&str>, home: Option<&str>) -> (r: String)
    ensures
        r@ == hef_or_default(opt_view(path), opt_view(env_value), opt_view(home), "Whisper-Tiny.hef"@),
{
    hef_path_or(path, env_value, home, "Whisper-Tiny.hef")
}

/// The LLM HEF: the request's, else `HAILO_LLM_HEF`, else
/// `Llama3.2-1B-Instruct.hef`.
pub fn llm_hef_path(path: Option<&str>, env_value: Option<&str>, home: Option<&str>) -> (r: String)
    ensures
        r@ == hef_or_default(opt_view(path), opt_view(env_value), opt_view(home), "Llama3.2-1B-Instruct.hef"@),
{
    hef_path_or(path, env_value, home, "Llama3.2-1B-Instruct.hef")
}

/// The VLM HEF: the request's, else `HAILO_VLM_HEF`, else
/// `qwen2-vl-2b-instruct.hef`.
pub fn vlm_hef_path(path: Option<&str>, env_value: Option<&str>, home: Option<&str>) -> (r: String)
    ensures
        r@ == hef_or_default(opt_view(path), opt_view(env_value), opt_view(home), "qwen2-vl-2b-instruct.hef"@),
{
    hef_path_or(path, env_value, home, "qwen2-vl-2b-instruct.hef")
}

/// The CLIP image HEF: the request's, else `HAILO_CLIP_HEF`, else
/// `clip_vit_b_16_image_encoder.hef`.
pub fn clip_image_hef_path(path: Option<&str>, env_value: Option<&str>, home: Option<&str>) -> (r: String)
    ensures
        r@ == hef_or_default(opt_view(path), opt_view(env_value), opt_view(home), "clip_vit_b_16_image_encoder.hef"@),
{
    hef_path_or(path, env_value, home, "clip_vit_b_16_image_encoder.hef")
}

/// The CLIP text model directory: the request's, else
/// `HAILO_CLIP_TEXT_MODEL_DIR`, else
/// `<home>/.cache/yu_ai_manager/clip_onnx/Xenova_clip-vit-base-patch16`.
pub fn clip_text_model_dir(path: Option<&str>, env_value: Option<&str>, home: Option<&str>) -> (r: String)
    ensures
        r@ == (match opt_view(path) {
            Some(p) => p,
            None => match opt_view(env_value) {
                Some(v) => v,
                None => joined_path(
                    joined_path(
                        joined_path(joined_path(home_or_default(opt_view(home)), ".cache"@), "yu_ai_manager"@),
                        "clip_onnx"@,
                    ),
                    "Xenova_clip-vit-base-patch16"@,
                ),
            },
        }),
{
    match path {
        Some(p) => String::from_str(p),
        None => match env_value {
            Some(v) => String::from_str(v),
            None => {
                proof {
                    reveal_strlit("/home/pi");
                }
                let h = match home {
                    Some(h) => String::from_str(h),
                    None => String::from_str("/home/pi"),
                };
                let a = path_join(h.as_str(), ".cache");
                let b = path_join(a.as_str(), "yu_ai_manager");
                let c = path_join(b.as_str(), "clip_onnx");
                path_join(c.as_str(), "Xenova_clip-vit-base-patch16")
            },
        },
    }
}

/// The media preprocessing permits a reservation takes: one per started MiB.
pub fn media_preprocessing_permits(reservation_bytes: u64) -> (r: u32)
    requires
        reservation_bytes <= 4294967295u64 * 1048576u64,
    ensures
        r as int * MEDIA_PREPROCESSING_PERMIT_BYTES >= reservation_bytes,
        r as int * MEDIA_PREPROCESSING_PERMIT_BYTES < reservation_bytes + MEDIA_PREPROCESSING_PERMIT_BYTES,
{
    let q = reservation_bytes / MEDIA_PREPROCESSING_PERMIT_BYTES;
    let rem = reservation_bytes % MEDIA_PREPROCESSING_PERMIT_BYTES;
    let n = if rem == 0 {
        q
    } else {
        q + 1
    };
    proof {
        assert(q * 1048576 + rem == reservation_bytes);
        assert(n <= 4294967295u64);
    }
    n as u32
}

/// The per-read timeout: the request's, else 30 s, never above 120 s.
pub fn effective_timeout_ms(timeout_ms: Option<u32>) -> (r: u32)
    ensures
        r == (match timeout_ms {
            Some(t) => if t < MAX_TIMEOUT_MS {
                t
            } else {
                MAX_TIMEOUT_MS
            },
            None => DEFAULT_TIMEOUT_MS,
        }),
{
    let t = match timeout_ms {
        Some(t) => t,
        None => DEFAULT_TIMEOUT_MS,
    };
    if t < MAX_TIMEOUT_MS {
        t
    } else {
        MAX_TIMEOUT_MS
    }
}

/// Refuse a `text` longer than `MAX_TEXT_BYTES` bytes (413
/// `text_too_large`).
pub fn validate_text_len(text: &str) -> (r: Option<ApiRejection>)
    ensures
        r is Some <==> encode_utf8(text@).len() > MAX_TEXT_BYTES,
        r matches Some(x) ==> rejected(x, 413, "text_too_large", "text exceeds 16384 bytes"@),
{
    if text.as_bytes().len() > MAX_TEXT_BYTES {
        return Some(reject(413, "text_too_large", "text exceeds 16384 bytes"));
    }
    None
}

/// Refuse a prompt longer than `MAX_PROMPT_BYTES` bytes (413
/// `prompt_too_large`).
pub fn validate_prompt_len(prompt: &str) -> (r: Option<ApiRejection>)
    ensures
        r is Some <==> encode_utf8(prompt@).len() > MAX_PROMPT_BYTES,
        r matches Some(x) ==> rejected(x, 413, "prompt_too_large", "prompt exceeds 16384 bytes"@),
{
    if prompt.as_bytes().len() > MAX_PROMPT_BYTES {
        return Some(reject(413, "prompt_too_large", "prompt exceeds 16384 bytes"));
    }
    None
}

/// The UTF-8 sizes of the texts, added up.
pub open spec fn total_bytes(texts: Seq<Seq<char>>) -> int
    decreases texts.len(),
{
    if texts.len() == 0 {
        0
    } else {
        total_bytes(texts.drop_last()) + encode_utf8(texts.last()).len()
    }
}

proof fn lemma_total_bytes_grows(texts: Seq<Seq<char>>, k: int)
    requires
        0 <= k <= texts.len(),
    ensures
        total_bytes(texts.take(k)) <= total_bytes(texts),
    decreases texts.len() - k,
{
    if k < texts.len() {
        lemma_total_bytes_grows(texts, k + 1);
        assert(texts.take(k + 1).drop_last() =~= texts.take(k));
    } else {
        assert(texts.take(k) =~= texts);
    }
}

/// Whether the texts add up to more than `limit` bytes.
fn exceeds_total(texts: &Vec<String>, limit: usize) -> (r: bool)
    ensures
        r == (total_bytes(texts.deep_view()) > limit),
{
    let ghost tv = texts.deep_view();
    let mut sum: usize = 0;
    let mut i: usize = 0;
    proof {
        assert(tv.take(0) =~= Seq::<Seq<char>>::empty());
    }
    while i < texts.len()
        invariant
            tv == texts.deep_view(),
            i <= tv.len(),
            sum == total_bytes(tv.take(i as int)),
            sum <= limit,
        decreases tv.len() - i,
    {
        let len = texts[i].as_str().as_bytes().len();
        proof {
            assert(tv.take(i + 1).drop_last() =~= tv.take(i as int));
            assert(tv[i as int] == texts@[i as int]@);
        }
        if len > limit - sum {
            proof {
                lemma_total_bytes_grows(tv, i + 1);
            }
            return true;
        }
        sum = sum + len;
        i = i + 1;
    }
    proof {
        assert(tv.take(i as int) =~= tv);
    }
    false
}

/// One chat turn of an LLM request.
#[derive(Debug, Clone, PartialEq, Eq)]
pub struct LlmChatMessageRequest {
    pub role: String,
    pub content: String,
}

/// The checks an LLM chat request passes before the device is touched, in
/// order: at least one message (400 `llm_messages_required`), at most
/// `MAX_LLM_MESSAGES` (400 `llm_too_many_messages`), message contents within
/// `MAX_PROMPT_BYTES` together (413 `prompt_too_large`), at most
/// `MAX_LLM_TOOLS` tools (400 `llm_too_many_tools`), tool definitions (as
/// compact JSON text) within `MAX_PROMPT_BYTES` together (413
/// `tools_too_large`), and `max_generated_tokens` within
/// `MAX_LLM_GENERATED_TOKENS` (400 `llm_max_generated_tokens_too_large`).
pub fn validate_llm_stream_request(
    messages: &Vec<LlmChatMessageRequest>,
    tools_json: &Vec<String>,
    max_generated_tokens: Option<u32>,
) -> (r: Result<(), ApiRejection>)
    ensures
        ({
            let contents = messages@.map_values(|m: LlmChatMessageRequest| m.content@);
            let too_many_tokens = max_generated_tokens matches Some(t) && t > MAX_LLM_GENERATED_TOKENS;
            &&& messages@.len() == 0 ==> err_with(r, 400, "llm_messages_required", "at least one message is required"@)
            &&& messages@.len() > MAX_LLM_MESSAGES ==> err_with(r, 400, "llm_too_many_messages", "at most 256 messages are allowed"@)
            &&& 0 < messages@.len() <= MAX_LLM_MESSAGES && total_bytes(contents) > MAX_PROMPT_BYTES ==> err_with(
                r,
                413,
                "prompt_too_large",
                "combined message content exceeds 16384 bytes"@,
            )
            &&& 0 < messages@.len() <= MAX_LLM_MESSAGES && total_bytes(contents) <= MAX_PROMPT_BYTES && tools_json@.len()
                > MAX_LLM_TOOLS ==> err_with(r, 400, "llm_too_many_tools", "at most 64 tools are allowed"@)
            &&& 0 < messages@.len() <= MAX_LLM_MESSAGES && total_bytes(contents) <= MAX_PROMPT_BYTES && tools_json@.len()
                <= MAX_LLM_TOOLS && total_bytes(tools_json.deep_view()) > MAX_PROMPT_BYTES ==> err_with(
                r,
                413,
                "tools_too_large",
                "combined tool definitions exceed 16384 bytes"@,
            )
            &&& 0 < messages@.len() <= MAX_LLM_MESSAGES && total_bytes(contents) <= MAX_PROMPT_BYTES && tools_json@.len()
                <= MAX_LLM_TOOLS && total_bytes(tools_json.deep_view()) <= MAX_PROMPT_BYTES && too_many_tokens ==> err_with(
                r,
                400,
                "llm_max_generated_tokens_too_large",
                "max_generated_tokens exceeds 4096"@,
            )
            &&& r is Ok <==> (0 < messages@.len() <= MAX_LLM_MESSAGES && total_bytes(contents) <= MAX_PROMPT_BYTES
                && tools_json@.len() <= MAX_LLM_TOOLS && total_bytes(tools_json.deep_view()) <= MAX_PROMPT_BYTES
                && !too_many_tokens)
        }),
{
    if messages.len() == 0 {
        return Err(reject(400, "llm_messages_required", "at least one message is required"));
    }
    if messages.len() > MAX_LLM_MESSAGES {
        return Err(reject(400, "llm_too_many_messages", "at most 256 messages are allowed"));
    }
    let mut contents: Vec<String> = Vec::new();
    let mut i: usize = 0;
    while i < messages.len()
        invariant
            i <= messages@.len(),
            contents.deep_view() == messages@.take(i as int).map_values(|m: LlmChatMessageRequest| m.content@),
        decreases messages@.len() - i,
    {
        let ghost before = contents.deep_view();
        contents.push(messages[i].content.clone());
        proof {
            assert(messages@.take(i + 1) =~= messages@.take(i as int).push(messages@[i as int]));
            assert(contents.deep_view() =~= before.push(messages@[i as int].content@));
            assert(contents.deep_view() =~= messages@.take(i + 1).map_values(|m: LlmChatMessageRequest| m.content@));
        }
        i = i + 1;
    }
    proof {
        assert(messages@.take(messages@.len() as int) =~= messages@);
    }
    if exceeds_total(&contents, MAX_PROMPT_BYTES) {
        return Err(reject(413, "prompt_too_large", "combined message content exceeds 16384 bytes"));
    }
    if tools_json.len() > MAX_LLM_TOOLS {
        return Err(reject(400, "llm_too_many_tools", "at most 64 tools are allowed"));
    }
    if exceeds_total(tools_json, MAX_PROMPT_BYTES) {
        return Err(reject(413, "tools_too_large", "combined tool definitions exceed 16384 bytes"));
    }
    match max_generated_tokens {
        Some(t) => {
            if t > MAX_LLM_GENERATED_TOKENS {
                return Err(reject(400, "llm_max_generated_tokens_too_large", "max_generated_tokens exceeds 4096"));
            }
        },
        None => {},
    }
    Ok(())
}

/// The checks a VLM request passes before its frames are decoded, in order:
/// the prompt within `MAX_PROMPT_BYTES` (413 `prompt_too_large`), at least
/// one frame (400 `vlm_frames_required`), at most `MAX_FRAMES` (400
/// `vlm_too_many_frames`).
pub fn validate_vlm_input(prompt: &str, frame_count: usize) -> (r: Result<(), ApiRejection>)
    ensures
        encode_utf8(prompt@).len() > MAX_PROMPT_BYTES ==> err_with(r, 413, "prompt_too_large", "prompt exceeds 16384 bytes"@),
        encode_utf8(prompt@).len() <= MAX_PROMPT_BYTES && frame_count == 0 ==> err_with(
            r,
            400,
            "vlm_frames_required",
            "at least one image frame is required"@,
        ),
        encode_utf8(prompt@).len() <= MAX_PROMPT_BYTES && frame_count > MAX_FRAMES ==> err_with(r, 400, "vlm_too_many_frames", "at most 8 frames are allowed"@),
        r is Ok <==> (encode_utf8(prompt@).len() <= MAX_PROMPT_BYTES && 0 < frame_count <= MAX_FRAMES),
{
    match validate_prompt_len(prompt) {
        Some(x) => {
            return Err(x);
        },
        None => {},
    }
    if frame_count == 0 {
        return Err(reject(400, "vlm_frames_required", "at least one image frame is required"));
    }
    if frame_count > MAX_FRAMES {
        return Err(reject(400, "vlm_too_many_frames", "at most 8 frames are allowed"));
    }
    Ok(())
}

/// The VLM streaming request's checks: `max_generated_tokens` within
/// `MAX_VLM_GENERATED_TOKENS` (400 `vlm_max_generated_tokens_too_large`)
/// first, then those of `validate_vlm_input`.
pub fn validate_vlm_stream_request(prompt: &str, frame_count: usize, max_generated_tokens: Option<u32>) -> (r: Result<
    (),
    ApiRejection,
>)
    ensures
        max_generated_tokens matches Some(t) && t > MAX_VLM_GENERATED_TOKENS ==> err_with(
            r,
            400,
            "vlm_max_generated_tokens_too_large",
            "max_generated_tokens exceeds 4096"@,
        ),
        r is Ok <==> (!(max_generated_tokens matches Some(t) && t > MAX_VLM_GENERATED_TOKENS)
            && encode_utf8(prompt@).len() <= MAX_PROMPT_BYTES && 0 < frame_count <= MAX_FRAMES),
        !(max_generated_tokens matches Some(t) && t > MAX_VLM_GENERATED_TOKENS) ==> {
            &&& encode_utf8(prompt@).len() > MAX_PROMPT_BYTES ==> err_with(r, 413, "prompt_too_large", "prompt exceeds 16384 bytes"@)
            &&& encode_utf8(prompt@).len() <= MAX_PROMPT_BYTES && frame_count == 0 ==> err_with(
                r,
                400,
                "vlm_frames_required",
                "at least one image frame is required"@,
            )
            &&& encode_utf8(prompt@).len() <= MAX_PROMPT_BYTES && frame_count > MAX_FRAMES ==> err_with(
                r,
                400,
                "vlm_too_many_frames",
                "at most 8 frames are allowed"@,
            )
        },
{
    match max_generated_tokens {
        Some(t) => {
            if t > MAX_VLM_GENERATED_TOKENS {
                return Err(reject(400, "vlm_max_generated_tokens_too_large", "max_generated_tokens exceeds 4096"));
            }
        },
        None => {},
    }
    validate_vlm_input(prompt, frame_count)
}

/// The integer settings of a YOLO decode.
#[derive(Debug, Clone, Copy, PartialEq, Eq)]
pub struct YoloSettings {
    pub num_classes: usize,
    pub input_size: u32,
    pub orig_w: u32,
    pub orig_h: u32,
}

/// A YOLO request's integer settings with their defaults: 80 classes, a
/// 640-pixel square input, and an original size equal to the input size.
pub fn yolo_settings(num_classes: Option<usize>, input_size: Option<u32>, orig_w: Option<u32>, orig_h: Option<u32>) -> (r:
    YoloSettings)
    ensures
        r.num_classes == (match num_classes {
            Some(n) => n,
            None => 80,
        }),
        r.input_size == (match input_size {
            Some(n) => n,
            None => 640,
        }),
        r.orig_w == (match orig_w {
            Some(n) => n,
            None => r.input_size,
        }),
        r.orig_h == (match orig_h {
            Some(n) => n,
            None => r.input_size,
        }),
{
    let size: u32 = match input_size {
        Some(n) => n,
        None => 640,
    };
    YoloSettings {
        num_classes: match num_classes {
            Some(n) => n,
            None => 80,
        },
        input_size: size,
        orig_w: match orig_w {
            Some(n) => n,
            None => size,
        },
        orig_h: match orig_h {
            Some(n) => n,
            None => size,
        },
    }
}

/// Refuse a base64 frame longer than `MAX_FRAME_BASE64_BYTES` bytes (413
/// with the endpoint's `code`).
pub fn validate_frame_len(frame_base64: &str, code: &str, field: &str) -> (r: Option<ApiRejection>)
    ensures
        r is Some <==> encode_utf8(frame_base64@).len() > MAX_FRAME_BASE64_BYTES,
        r matches Some(x) ==> x.status == 413 && x.code@ == code@ && x.message@ == field@ + " exceeds 8388608 bytes"@,
{
    if frame_base64.as_bytes().len() > MAX_FRAME_BASE64_BYTES {
        let msg = crate::text::cat(field, " exceeds 8388608 bytes");
        return Some(ApiRejection { status: 413, code: String::from_str(code), message: msg });
    }
    None
}

/// A CLIP image input must be a non-empty `[height, width, 3]` tensor (400
/// `hailort_clip_image_invalid_metadata`).
pub fn validate_clip_input_shape(dimensions: [usize; 3]) -> (r: Option<ApiRejection>)
    ensures
        r is Some <==> (dimensions@[0] == 0 || dimensions@[1] == 0 || dimensions@[2] != 3),
        r matches Some(x) ==> rejected(
            x,
            400,
            "hailort_clip_image_invalid_metadata",
            "CLIP image input must use a non-empty HWC RGB tensor"@,
        ),
{
    if dimensions[1] == 0 || dimensions[0] == 0 || dimensions[2] != 3 {
        return Some(
            reject(400, "hailort_clip_image_invalid_metadata", "CLIP image input must use a non-empty HWC RGB tensor"),
        );
    }
    None
}

/// The decoded YOLO input must be exactly the first input's frame size: 400
/// `hailort_yolo_invalid_metadata` when the model has no input, 400
/// `hailort_yolo_detect_input_size_mismatch` when the size differs.
pub fn validate_yolo_input(input_frame_sizes: &Vec<usize>, input_len: usize) -> (r: Option<ApiRejection>)
    ensures
        input_frame_sizes@.len() == 0 ==> some_with(r, 400, "hailort_yolo_invalid_metadata", "missing YOLO input"@),
        input_frame_sizes@.len() > 0 && input_len != input_frame_sizes@[0] ==> some_with(
            r,
            400,
            "hailort_yolo_detect_input_size_mismatch",
            "YOLO input size mismatch: expected "@ + decimal(input_frame_sizes@[0] as nat) + " bytes, got "@ + decimal(
                input_len as nat,
            ),
        ),
        r is None <==> (input_frame_sizes@.len() > 0 && input_len == input_frame_sizes@[0]),
{
    if input_frame_sizes.len() == 0 {
        return Some(reject(400, "hailort_yolo_invalid_metadata", "missing YOLO input"));
    }
    let expected = input_frame_sizes[0];
    if input_len != expected {
        let e = crate::text::u64_text(expected as u64);
        let g = crate::text::u64_text(input_len as u64);
        let m = crate::text::cat("YOLO input size mismatch: expected ", e.as_str());
        let m = crate::text::cat(m.as_str(), " bytes, got ");
        let m = crate::text::cat(m.as_str(), g.as_str());
        return Some(ApiRejection {
            status: 400,
            code: String::from_str("hailort_yolo_detect_input_size_mismatch"),
            message: m,
        });
    }
    None
}

/// The query naming a HEF file.
#[derive(Debug, Clone, PartialEq, Eq)]
pub struct HefQuery {
    pub hef_path: Option<String>,
}

/// A request to replace the scan roots. The sender numbers its changes in
/// the order it wrote them; an older sender sends no number.
#[derive(Debug, Clone, PartialEq, Eq)]
pub struct ScanRootsChangedRequest {
    pub scan_roots: Vec<String>,
    pub generation: Option<u64>,
}

/// A request to embed one image with CLIP.
#[derive(Debug, Clone, PartialEq, Eq)]
pub struct ClipImageRequest {
    pub hef_path: Option<String>,
    pub image_base64: String,
}

/// A request to embed one text with CLIP.
#[derive(Debug, Clone, PartialEq, Eq)]
pub struct ClipTextRequest {
    pub model_dir: Option<String>,
    pub text: String,
}

/// A request to tokenize a text.
#[derive(Debug, Clone, PartialEq, Eq)]
pub struct TokenizeRequest {
    pub hef_path: Option<String>,
    pub text: String,
}

/// A request for one LLM completion.
#[derive(Debug, Clone, PartialEq, Eq)]
pub struct LlmGenerateRequest {
    pub hef_path: Option<String>,
    pub prompt: String,
    pub timeout_ms: Option<u32>,
}

/// A request for one VLM completion over image frames.
#[derive(Debug, Clone, PartialEq, Eq)]
pub struct VlmGenerateRequest {
    pub hef_path: Option<String>,
    pub prompt: String,
    pub frames: Vec<String>,
    pub timeout_ms: Option<u32>,
}

/// The command line: the port to listen on and the WD model cache.
#[derive(Debug, Clone, PartialEq, Eq)]
pub struct Cli {
    pub port: u16,
    pub wd_cache_dir: String,
}

/// The port used when none is given.
pub const DEFAULT_PORT: u16 = 18771;

/// The configuration every handler reads.
#[derive(Debug, Clone, PartialEq, Eq)]
pub struct AppState {
    pub instance_id: String,
    pub scan_roots: Vec<String>,
    pub auth_token: String,
    pub wd_cache_dir: String,
    /// The highest numbered scan-roots change applied so far, if any.
    pub scan_roots_generation: Option<u64>,
}

/// A numbered change is stale when a change numbered the same or higher was
/// already applied; an unnumbered change never is.
pub open spec fn scan_roots_change_is_stale(applied: Option<u64>, incoming: Option<u64>) -> bool {
    match (applied, incoming) {
        (Some(a), Some(g)) => g <= a,
        _ => false,
    }
}

/// The highest applied number after a change arrives: a fresh numbered
/// change records its number; anything else leaves the record alone.
pub open spec fn next_scan_roots_generation(applied: Option<u64>, incoming: Option<u64>) -> Option<u64> {
    if scan_roots_change_is_stale(applied, incoming) {
        applied
    } else {
        match incoming {
            Some(g) => Some(g),
            None => applied,
        }
    }
}

/// Whether the generation record `b` is at least `a`.
pub open spec fn generation_at_least(a: Option<u64>, b: Option<u64>) -> bool {
    match a {
        Some(x) => b matches Some(y) && x <= y,
        None => true,
    }
}

impl AppState {
    /// Apply a scan-roots change unless it is stale: the roots are replaced
    /// and a numbered change records its number. A stale change leaves the
    /// state as it was. Returns whether the change was applied.
    pub fn apply_scan_roots_change(&mut self, roots: Vec<String>, generation: Option<u64>) -> (applied: bool)
        ensures
            applied == !scan_roots_change_is_stale(old(self).scan_roots_generation, generation),
            applied ==> final(self).scan_roots@ == roots@,
            !applied ==> final(self).scan_roots@ == old(self).scan_roots@,
            final(self).scan_roots_generation == next_scan_roots_generation(old(self).scan_roots_generation, generation),
            final(self).instance_id == old(self).instance_id,
            final(self).auth_token == old(self).auth_token,
            final(self).wd_cache_dir == old(self).wd_cache_dir,
    {
        let stale = match (self.scan_roots_generation, generation) {
            (Some(a), Some(g)) => g <= a,
            _ => false,
        };
        if stale {
            return false;
        }
        self.scan_roots = roots;
        if let Some(g) = generation {
            self.scan_roots_generation = Some(g);
        }
        true
    }
}

/// The recorded generation never goes down: a stale change leaves it as it
/// was, and a fresh numbered change records its own number, which is at
/// least the one recorded before.
pub proof fn law_scan_roots_generation_never_decreases(applied: Option<u64>, incoming: Option<u64>)
    ensures
        generation_at_least(applied, next_scan_roots_generation(applied, incoming)),
        scan_roots_change_is_stale(applied, incoming) ==> next_scan_roots_generation(applied, incoming) == applied,
        incoming matches Some(g) ==> (!scan_roots_change_is_stale(applied, incoming) ==> next_scan_roots_generation(
            applied,
            incoming,
        ) == Some(g) && generation_at_least(applied, Some(g))),
{
}

} // verus!
