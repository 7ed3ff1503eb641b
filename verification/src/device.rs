//! Which HailoRT handles are resident on the device, which one the running
//! task uses, and what a panicking task costs. The handles themselves live
//! with the caller; this state decides when one is created, reused, refused
//! or dropped, and when the device stops taking work.
use vstd::prelude::*;
use crate::hailort::HailoRtError;
use crate::text::text_is;

verus! {

/// Panicking tasks whose handle may be dropped before the device refuses all
/// further work.
pub const MAX_PANIC_HANDLE_DISCARDS: usize = 3;

/// What a refused task is told once the discard limit is reached.
pub const HAILORT_DEGRADED_MESSAGE: &'static str = "HailoRT handle discard limit reached; reboot required before further inference";

/// What identifies a resident LLM handle.
#[derive(Debug, Clone, PartialEq, Eq)]
pub struct LlmKey {
    pub model_path: String,
    pub lora_name: Option<String>,
    pub optimize_memory_on_device: bool,
}

/// What identifies a resident VLM handle.
#[derive(Debug, Clone, PartialEq, Eq)]
pub struct VlmKey {
    pub model_path: String,
    pub optimize_memory_on_device: bool,
}

/// The plain-value form of an `LlmKey`.
pub open spec fn llm_key_view(k: LlmKey) -> (Seq<char>, Option<Seq<char>>, bool) {
    (k.model_path@, match k.lora_name {
        Some(l) => Some(l@),
        None => None,
    }, k.optimize_memory_on_device)
}

/// The plain-value form of a `VlmKey`.
pub open spec fn vlm_key_view(k: VlmKey) -> (Seq<char>, bool) {
    (k.model_path@, k.optimize_memory_on_device)
}

/// The handle a task is using.
#[derive(Debug, Clone, PartialEq, Eq)]
pub enum ActiveHandle {
    InferModel(String),
    Llm(LlmKey),
    Vlm(VlmKey),
}

/// The one generative model that may be resident.
#[derive(Debug, Clone, PartialEq, Eq)]
#[allow(inconsistent_fields)]
pub enum ResidentGenAi {
    Llm { key: LlmKey },
    Vlm { key: VlmKey },
}

/// A generative model request: the key it would be resident under.
#[derive(Debug, Clone, PartialEq, Eq)]
pub enum GenAiKey {
    Llm(LlmKey),
    Vlm(VlmKey),
}

/// The plain-value form of a generative model's key: `Ok` for an LLM, `Err`
/// for a VLM.
pub open spec fn genai_key_view(k: GenAiKey) -> Result<(Seq<char>, Option<Seq<char>>, bool), (Seq<char>, bool)> {
    match k {
        GenAiKey::Llm(l) => Ok(llm_key_view(l)),
        GenAiKey::Vlm(v) => Err(vlm_key_view(v)),
    }
}

/// The plain-value form of the resident model's key.
pub open spec fn resident_key_view(r: ResidentGenAi) -> Result<(Seq<char>, Option<Seq<char>>, bool), (Seq<char>, bool)> {
    match r {
        ResidentGenAi::Llm { key } => Ok(llm_key_view(key)),
        ResidentGenAi::Vlm { key } => Err(vlm_key_view(key)),
    }
}

/// The plain-value form of an active handle: the InferModel's HEF path, or a
/// generative model's key.
pub open spec fn active_view(a: ActiveHandle) -> Result<Seq<char>, Result<(Seq<char>, Option<Seq<char>>, bool), (Seq<char>, bool)>> {
    match a {
        ActiveHandle::InferModel(h) => Ok(h@),
        ActiveHandle::Llm(l) => Err(Ok(llm_key_view(l))),
        ActiveHandle::Vlm(v) => Err(Err(vlm_key_view(v))),
    }
}

/// The HEF path of a generative model's key.
pub open spec fn genai_path(k: Result<(Seq<char>, Option<Seq<char>>, bool), (Seq<char>, bool)>) -> Seq<char> {
    match k {
        Ok(l) => l.0,
        Err(v) => v.0,
    }
}

fn clone_llm_key(k: &LlmKey) -> (r: LlmKey)
    ensures
        llm_key_view(r) == llm_key_view(*k),
{
    LlmKey {
        model_path: k.model_path.clone(),
        lora_name: match &k.lora_name {
            Some(l) => Some(l.clone()),
            None => None,
        },
        optimize_memory_on_device: k.optimize_memory_on_device,
    }
}

fn clone_vlm_key(k: &VlmKey) -> (r: VlmKey)
    ensures
        vlm_key_view(r) == vlm_key_view(*k),
{
    VlmKey { model_path: k.model_path.clone(), optimize_memory_on_device: k.optimize_memory_on_device }
}

fn llm_keys_equal(a: &LlmKey, b: &LlmKey) -> (r: bool)
    ensures
        r == (llm_key_view(*a) == llm_key_view(*b)),
{
    let lora_same = match (&a.lora_name, &b.lora_name) {
        (Some(x), Some(y)) => text_is(x.as_str(), y.as_str()),
        (None, None) => true,
        _ => false,
    };
    text_is(a.model_path.as_str(), b.model_path.as_str()) && lora_same && a.optimize_memory_on_device
        == b.optimize_memory_on_device
}

fn vlm_keys_equal(a: &VlmKey, b: &VlmKey) -> (r: bool)
    ensures
        r == (vlm_key_view(*a) == vlm_key_view(*b)),
{
    text_is(a.model_path.as_str(), b.model_path.as_str()) && a.optimize_memory_on_device == b.optimize_memory_on_device
}

impl ResidentGenAi {
    /// The HEF path the resident model was created from.
    pub fn hef_path(&self) -> (r: &str)
        ensures
            r@ == genai_path(resident_key_view(*self)),
    {
        match self {
            ResidentGenAi::Llm { key } => key.model_path.as_str(),
            ResidentGenAi::Vlm { key } => key.model_path.as_str(),
        }
    }

    /// Whether `active` names this resident model: the same kind, the same
    /// key.
    pub fn matches_active(&self, active: &ActiveHandle) -> (r: bool)
        ensures
            r == (active_view(*active) == Err::<Seq<char>, _>(resident_key_view(*self))),
    {
        match (self, active) {
            (ResidentGenAi::Llm { key }, ActiveHandle::Llm(k)) => llm_keys_equal(key, k),
            (ResidentGenAi::Vlm { key }, ActiveHandle::Vlm(k)) => vlm_keys_equal(key, k),
            _ => false,
        }
    }
}

/// Why a device task produced no result.
#[derive(Debug, Clone, PartialEq, Eq)]
pub enum TaskError {
    /// HailoRT reported an error.
    HailoRt(HailoRtError),
    /// The task panicked.
    Panicked,
    /// The device takes no more work.
    Unavailable(String),
}

impl TaskError {
    /// The HTTP status the error is answered with: 409 for a generative
    /// model conflict, 503 when the device takes no more work, 400 otherwise.
    pub fn status_code(&self) -> (r: u16)
        ensures
            r == (match self {
                TaskError::HailoRt(HailoRtError::GenAiConflict { .. }) => 409u16,
                TaskError::Unavailable(_) => 503u16,
                _ => 400u16,
            }),
    {
        match self {
            TaskError::HailoRt(HailoRtError::GenAiConflict { .. }) => 409,
            TaskError::Unavailable(_) => 503,
            _ => 400,
        }
    }

    /// The status a streamed error event carries: 503 when the device takes
    /// no more work, none otherwise.
    pub fn sse_status(&self) -> (r: Option<u16>)
        ensures
            r == (if self is Unavailable {
                Some(503u16)
            } else {
                None::<u16>
            }),
    {
        match self {
            TaskError::Unavailable(_) => Some(503),
            _ => None,
        }
    }

    /// The error's message.
    pub fn message(&self) -> (r: String)
        ensures
            match self {
                TaskError::HailoRt(e) => r@ == crate::hailort::hailo_message(*e),
                TaskError::Panicked => r@ == "HailoRT task panicked"@,
                TaskError::Unavailable(m) => r@ == m@,
            },
    {
        match self {
            TaskError::HailoRt(e) => e.message(),
            TaskError::Panicked => String::from_str("HailoRT task panicked"),
            TaskError::Unavailable(m) => m.clone(),
        }
    }
}

/// What to do about a generative model request.
#[derive(Debug, Clone, PartialEq, Eq)]
pub enum GenAiDecision {
    /// Nothing is resident: create the model, then `use_genai`.
    Create,
    /// The requested model is resident: `use_genai` it.
    Use,
    /// Another model is resident; the request is refused.
    Conflict { requested: String, loaded: String },
}

/// The handle a panic cost.
#[derive(Debug, Clone, PartialEq, Eq)]
pub enum Discarded {
    InferModel(String),
    GenAi,
}

/// The device's residency state.
pub struct DeviceCtx {
    infer_models: Vec<String>,
    genai: Option<ResidentGenAi>,
    active: Option<ActiveHandle>,
    panic_discards: usize,
    degraded: bool,
}

impl DeviceCtx {
    /// The HEF paths of the resident InferModel handles.
    pub closed spec fn infer_models(&self) -> Seq<Seq<char>> {
        self.infer_models.deep_view()
    }

    /// The resident generative model's key, if any.
    pub closed spec fn genai(&self) -> Option<Result<(Seq<char>, Option<Seq<char>>, bool), (Seq<char>, bool)>> {
        match self.genai {
            Some(r) => Some(resident_key_view(r)),
            None => None,
        }
    }

    /// The handle the running task uses, if any.
    pub closed spec fn active(&self) -> Option<Result<Seq<char>, Result<(Seq<char>, Option<Seq<char>>, bool), (Seq<char>, bool)>>> {
        match self.active {
            Some(a) => Some(active_view(a)),
            None => None,
        }
    }

    /// Panicking tasks whose handle has been dropped.
    pub closed spec fn panic_discards(&self) -> nat {
        self.panic_discards as nat
    }

    /// The device takes no more work.
    pub closed spec fn degraded(&self) -> bool {
        self.degraded
    }

    /// Each InferModel handle is resident once; the active handle is a
    /// resident one; the discard count never passes its limit, and the device
    /// degrades only once the limit is reached.
    pub open spec fn wf(&self) -> bool {
        &&& forall|i: int, j: int|
            0 <= i < j < self.infer_models().len() ==> #[trigger] self.infer_models()[i] != #[trigger] self.infer_models()[j]
        &&& self.panic_discards() <= MAX_PANIC_HANDLE_DISCARDS
        &&& self.degraded() ==> self.panic_discards() == MAX_PANIC_HANDLE_DISCARDS
        &&& match self.active() {
            Some(Ok(h)) => self.infer_models().contains(h),
            Some(Err(k)) => self.genai() == Some(k),
            None => true,
        }
    }

    /// A device with nothing resident.
    pub fn new() -> (r: DeviceCtx)
        ensures
            r.wf(),
            r.infer_models().len() == 0,
            r.genai() is None,
            r.active() is None,
            r.panic_discards() == 0,
            !r.degraded(),
    {
        let r = DeviceCtx { infer_models: Vec::new(), genai: None, active: None, panic_discards: 0, degraded: false };
        proof {
            assert(r.infer_models() =~= Seq::<Seq<char>>::empty());
        }
        r
    }

    /// Start a task: refused once the device is degraded; otherwise no handle
    /// is active yet.
    pub fn begin_task(&mut self) -> (r: Result<(), TaskError>)
        requires
            old(self).wf(),
        ensures
            final(self).wf(),
            r is Ok <==> !old(self).degraded(),
            r matches Err(e) ==> e matches TaskError::Unavailable(m) && m@ == HAILORT_DEGRADED_MESSAGE@,
            r is Ok ==> final(self).active() is None,
            r is Err ==> final(self).active() == old(self).active(),
            final(self).infer_models() == old(self).infer_models(),
            final(self).genai() == old(self).genai(),
            final(self).panic_discards() == old(self).panic_discards(),
            final(self).degraded() == old(self).degraded(),
    {
        if self.degraded {
            return Err(TaskError::Unavailable(String::from_str(HAILORT_DEGRADED_MESSAGE)));
        }
        self.active = None;
        Ok(())
    }

    /// A task finished (with a result or an error): no handle is active.
    pub fn end_task(&mut self)
        requires
            old(self).wf(),
        ensures
            final(self).wf(),
            final(self).active() is None,
            final(self).infer_models() == old(self).infer_models(),
            final(self).genai() == old(self).genai(),
            final(self).panic_discards() == old(self).panic_discards(),
            final(self).degraded() == old(self).degraded(),
    {
        self.active = None;
    }

    /// Whether an InferModel handle for `hef_path` is resident.
    pub fn has_infer_model(&self, hef_path: &str) -> (r: bool)
        ensures
            r == self.infer_models().contains(hef_path@),
    {
        let ghost v = self.infer_models();
        let mut i: usize = 0;
        while i < self.infer_models.len()
            invariant
                v == self.infer_models.deep_view(),
                i <= v.len(),
                forall|j: int| 0 <= j < i ==> v[j] != hef_path@,
            decreases v.len() - i,
        {
            if text_is(self.infer_models[i].as_str(), hef_path) {
                proof {
                    assert(v[i as int] == hef_path@);
                }
                return true;
            }
            i = i + 1;
        }
        false
    }

    /// Use the InferModel handle for `hef_path` (the caller created it when
    /// it was not resident): it is resident once and active.
    pub fn use_infer_model(&mut self, hef_path: &str)
        requires
            old(self).wf(),
        ensures
            final(self).wf(),
            final(self).infer_models().to_set() == old(self).infer_models().to_set().insert(hef_path@),
            old(self).infer_models().contains(hef_path@) ==> final(self).infer_models() == old(self).infer_models(),
            final(self).active() == Some(Ok::<Seq<char>, Result<(Seq<char>, Option<Seq<char>>, bool), (Seq<char>, bool)>>(hef_path@)),
            final(self).genai() == old(self).genai(),
            final(self).panic_discards() == old(self).panic_discards(),
            final(self).degraded() == old(self).degraded(),
    {
        let ghost before = self.infer_models();
        if !self.has_infer_model(hef_path) {
            self.infer_models.push(String::from_str(hef_path));
            proof {
                assert(self.infer_models() =~= before.push(hef_path@));
                assert(self.infer_models().to_set() =~= before.to_set().insert(hef_path@)) by {
                    assert forall|x: Seq<char>| self.infer_models().to_set().contains(x) <==> before.to_set().insert(hef_path@).contains(x) by {
                        if x == hef_path@ {
                            assert(self.infer_models()[before.len() as int] == x);
                        } else if before.contains(x) {
                            let w = choose|w: int| 0 <= w < before.len() && before[w] == x;
                            assert(self.infer_models()[w] == x);
                        }
                    }
                }
            }
        } else {
            proof {
                assert(before.to_set().insert(hef_path@) =~= before.to_set());
            }
        }
        self.active = Some(ActiveHandle::InferModel(String::from_str(hef_path)));
        proof {
            assert(self.infer_models().contains(hef_path@)) by {
                let s = self.infer_models();
                assert(s.to_set().contains(hef_path@));
            }
        }
    }

    /// What to do about a request for the generative model `key`: create it
    /// when nothing is resident, use it when it is the resident one, and
    /// otherwise refuse, naming the requested and the resident HEF.
    pub fn genai_decision(&self, key: &GenAiKey) -> (r: GenAiDecision)
        ensures
            self.genai() is None ==> r is Create,
            self.genai() == Some(genai_key_view(*key)) ==> r is Use,
            self.genai() is Some && self.genai()->0 != genai_key_view(*key) ==> (r matches GenAiDecision::Conflict {
                requested,
                loaded,
            } && requested@ == genai_path(genai_key_view(*key)) && loaded@ == genai_path(self.genai()->0)),
    {
        match &self.genai {
            None => GenAiDecision::Create,
            Some(resident) => {
                let same = match (resident, key) {
                    (ResidentGenAi::Llm { key: a }, GenAiKey::Llm(b)) => llm_keys_equal(a, b),
                    (ResidentGenAi::Vlm { key: a }, GenAiKey::Vlm(b)) => vlm_keys_equal(a, b),
                    _ => false,
                };
                if same {
                    GenAiDecision::Use
                } else {
                    let requested = match key {
                        GenAiKey::Llm(k) => k.model_path.clone(),
                        GenAiKey::Vlm(k) => k.model_path.clone(),
                    };
                    let loaded = String::from_str(resident.hef_path());
                    GenAiDecision::Conflict { requested, loaded }
                }
            },
        }
    }

    /// The caller created the generative model `key` while nothing was
    /// resident: it is now resident.
    pub fn genai_created(&mut self, key: &GenAiKey)
        requires
            old(self).wf(),
            old(self).genai() is None,
        ensures
            final(self).wf(),
            final(self).genai() == Some(genai_key_view(*key)),
            final(self).infer_models() == old(self).infer_models(),
            final(self).active() == old(self).active(),
            final(self).panic_discards() == old(self).panic_discards(),
            final(self).degraded() == old(self).degraded(),
    {
        proof {
            assert(!(old(self).active() matches Some(Err(_))));
        }
        self.genai = Some(match key {
            GenAiKey::Llm(k) => ResidentGenAi::Llm { key: clone_llm_key(k) },
            GenAiKey::Vlm(k) => ResidentGenAi::Vlm { key: clone_vlm_key(k) },
        });
        proof {
            assert(self.active() == old(self).active());
            assert(self.infer_models() == old(self).infer_models());
        }
    }

    /// Use the resident generative model `key`: it becomes the active handle.
    pub fn use_genai(&mut self, key: &GenAiKey)
        requires
            old(self).wf(),
            old(self).genai() == Some(genai_key_view(*key)),
        ensures
            final(self).wf(),
            final(self).active() == Some(Err::<Seq<char>, _>(genai_key_view(*key))),
            final(self).infer_models() == old(self).infer_models(),
            final(self).genai() == old(self).genai(),
            final(self).panic_discards() == old(self).panic_discards(),
            final(self).degraded() == old(self).degraded(),
    {
        self.active = Some(match key {
            GenAiKey::Llm(k) => ActiveHandle::Llm(clone_llm_key(k)),
            GenAiKey::Vlm(k) => ActiveHandle::Vlm(clone_vlm_key(k)),
        });
    }

    /// A speech-to-text task creates its own handle each time: nothing
    /// resident is active.
    pub fn use_speech2text(&mut self)
        requires
            old(self).wf(),
        ensures
            final(self).wf(),
            final(self).active() is None,
            final(self).infer_models() == old(self).infer_models(),
            final(self).genai() == old(self).genai(),
            final(self).panic_discards() == old(self).panic_discards(),
            final(self).degraded() == old(self).degraded(),
    {
        self.active = None;
    }

    /// The running task panicked. With no active handle nothing is dropped.
    /// Once the discard limit is reached the device degrades and drops
    /// nothing more. Otherwise the active handle is dropped (the generative
    /// model only when it is the one active) and counted; the caller drops
    /// the handle returned.
    pub fn discard_active_after_panic(&mut self) -> (r: (TaskError, Option<Discarded>))
        requires
            old(self).wf(),
        ensures
            final(self).wf(),
            final(self).active() is None,
            old(self).degraded() ==> final(self).degraded(),
            old(self).active() is None ==> {
                &&& r.0 is Panicked
                &&& r.1 is None
                &&& final(self).infer_models() == old(self).infer_models()
                &&& final(self).genai() == old(self).genai()
                &&& final(self).panic_discards() == old(self).panic_discards()
                &&& final(self).degraded() == old(self).degraded()
            },
            old(self).active() is Some && old(self).panic_discards() >= MAX_PANIC_HANDLE_DISCARDS ==> {
                &&& r.0 matches TaskError::Unavailable(m) && m@ == HAILORT_DEGRADED_MESSAGE@
                &&& r.1 is None
                &&& final(self).degraded()
                &&& final(self).infer_models() == old(self).infer_models()
                &&& final(self).genai() == old(self).genai()
                &&& final(self).panic_discards() == old(self).panic_discards()
            },
            old(self).active() is Some && old(self).panic_discards() < MAX_PANIC_HANDLE_DISCARDS ==> {
                &&& r.0 is Panicked
                &&& final(self).panic_discards() == old(self).panic_discards() + 1
                &&& final(self).degraded() == old(self).degraded()
                &&& match old(self).active() {
                    Some(Ok(h)) => {
                        &&& r.1 matches Some(Discarded::InferModel(d)) && d@ == h
                        &&& final(self).infer_models().to_set() == old(self).infer_models().to_set().remove(h)
                        &&& final(self).genai() == old(self).genai()
                    },
                    Some(Err(k)) => {
                        &&& r.1 matches Some(Discarded::GenAi)
                        &&& final(self).genai() is None
                        &&& final(self).infer_models() == old(self).infer_models()
                    },
                    None => true,
                }
            },
    {
        let active = match self.active.take() {
            Some(a) => a,
            None => {
                return (TaskError::Panicked, None);
            },
        };
        if self.panic_discards >= MAX_PANIC_HANDLE_DISCARDS {
            self.degraded = true;
            return (TaskError::Unavailable(String::from_str(HAILORT_DEGRADED_MESSAGE)), None);
        }
        let discarded = match active {
            ActiveHandle::InferModel(hef_path) => {
                self.remove_infer_model(hef_path.as_str());
                Discarded::InferModel(hef_path)
            },
            ActiveHandle::Llm(_) | ActiveHandle::Vlm(_) => {
                let matches = match &self.genai {
                    Some(resident) => resident.matches_active(&active),
                    None => false,
                };
                if matches {
                    self.genai = None;
                }
                Discarded::GenAi
            },
        };
        self.panic_discards = self.panic_discards + 1;
        (TaskError::Panicked, Some(discarded))
    }

    fn remove_infer_model(&mut self, hef_path: &str)
        requires
            old(self).wf(),
            old(self).active() is None,
        ensures
            final(self).infer_models().to_set() == old(self).infer_models().to_set().remove(hef_path@),
            forall|i: int, j: int|
                0 <= i < j < final(self).infer_models().len() ==> #[trigger] final(self).infer_models()[i]
                    != #[trigger] final(self).infer_models()[j],
            final(self).genai() == old(self).genai(),
            final(self).active() is None,
            final(self).panic_discards() == old(self).panic_discards(),
            final(self).degraded() == old(self).degraded(),
    {
        let ghost before = self.infer_models();
        let mut kept: Vec<String> = Vec::new();
        let mut i: usize = 0;
        while i < self.infer_models.len()
            invariant
                before == self.infer_models.deep_view(),
                i <= before.len(),
                forall|a: int, b: int| 0 <= a < b < before.len() ==> #[trigger] before[a] != #[trigger] before[b],
                forall|a: int| 0 <= a < kept@.len() ==> (#[trigger] kept.deep_view()[a]) != hef_path@,
                forall|a: int, b: int|
                    0 <= a < b < kept@.len() ==> #[trigger] kept.deep_view()[a] != #[trigger] kept.deep_view()[b],
                forall|x: Seq<char>| kept.deep_view().contains(x) <==> (x != hef_path@ && before.take(i as int).contains(x)),
            decreases before.len() - i,
        {
            let ghost prev = kept.deep_view();
            if !text_is(self.infer_models[i].as_str(), hef_path) {
                kept.push(self.infer_models[i].clone());
                proof {
                    assert(kept.deep_view() =~= prev.push(before[i as int]));
                    assert forall|a: int, b: int|
                        0 <= a < b < kept@.len() implies #[trigger] kept.deep_view()[a] != #[trigger] kept.deep_view()[b] by {
                        if b == prev.len() {
                            if kept.deep_view()[a] == before[i as int] {
                                assert(prev.contains(before[i as int]));
                                let w = choose|w: int| 0 <= w < i && before.take(i as int)[w] == before[i as int];
                                assert(before[w] == before[i as int]);
                            }
                        } else {
                            assert(kept.deep_view()[a] == prev[a]);
                            assert(kept.deep_view()[b] == prev[b]);
                        }
                    }
                    assert(before[i as int] != hef_path@);
                    let t = before.take(i + 1);
                    assert(t =~= before.take(i as int).push(before[i as int]));
                    assert forall|x: Seq<char>| #[trigger] kept.deep_view().contains(x) implies (x != hef_path@ && t.contains(x)) by {
                        let w = choose|w: int| 0 <= w < kept.deep_view().len() && kept.deep_view()[w] == x;
                        if w < prev.len() {
                            assert(prev[w] == x);
                            assert(prev.contains(x));
                            let v = choose|v: int| 0 <= v < i && before.take(i as int)[v] == x;
                            assert(t[v] == x);
                        } else {
                            assert(t[i as int] == x);
                        }
                    }
                    assert forall|x: Seq<char>| x != hef_path@ && #[trigger] t.contains(x) implies kept.deep_view().contains(x) by {
                        let w = choose|w: int| 0 <= w < t.len() && t[w] == x;
                        if w == i {
                            assert(kept.deep_view()[prev.len() as int] == x);
                        } else {
                            assert(before.take(i as int)[w] == x);
                            assert(before.take(i as int).contains(x));
                            assert(prev.contains(x));
                            let v = choose|v: int| 0 <= v < prev.len() && prev[v] == x;
                            assert(kept.deep_view()[v] == x);
                        }
                    }
                }
            } else {
                proof {
                    assert(before[i as int] == hef_path@);
                    let t = before.take(i + 1);
                    assert(t =~= before.take(i as int).push(before[i as int]));
                    assert forall|x: Seq<char>| #[trigger] kept.deep_view().contains(x) implies (x != hef_path@ && t.contains(x)) by {
                        assert(x != hef_path@ && before.take(i as int).contains(x));
                        let w = choose|w: int| 0 <= w < i && before.take(i as int)[w] == x;
                        assert(t[w] == x);
                    }
                    assert forall|x: Seq<char>| x != hef_path@ && #[trigger] t.contains(x) implies kept.deep_view().contains(x) by {
                        let w = choose|w: int| 0 <= w < t.len() && t[w] == x;
                        assert(w != i);
                        assert(before.take(i as int)[w] == x);
                        assert(before.take(i as int).contains(x));
                    }
                }
            }
            i = i + 1;
        }
        self.infer_models = kept;
        proof {
            assert(before.take(before.len() as int) =~= before);
            assert(self.infer_models().to_set() =~= before.to_set().remove(hef_path@));
        }
    }
}

} // verus!
