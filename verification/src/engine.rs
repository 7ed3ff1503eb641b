//! The tagger engine's decisions that do not need the model: the image size
//! limits, the built-in WD recipe, and turning the model's scores into the
//! rating label and the ranked tags.
use vstd::prelude::*;
use crate::error::InferError;
use crate::profile::{OutputSpec, PreprocessSpec, TagSourceSpec, WdProfileSpec, default_categories_mode, ONE_BITS};
use crate::text::{concat, decimal, text_is, u64_text};
use crate::tags::TagMeta;
use crate::order::{is_permutation, lemma_permutation_onto, order_by_key_desc, ranked_desc, reaches};

verus! {

/// Largest accepted width or height of a decoded WD input image.
pub const MAX_WD_DECODED_IMAGE_DIMENSION: u32 = 4096;

/// Largest accepted decoded size of a WD input image, in bytes.
pub const MAX_WD_DECODED_IMAGE_BYTES: u64 = 67108864;

/// Decoded bytes per pixel (RGBA).
pub const WD_DECODED_BYTES_PER_PIXEL: u64 = 4;

/// Both sides are non-zero and within the per-side limit, and the decoded
/// RGBA buffer fits the byte limit.
pub open spec fn wd_dimensions_ok(width: u32, height: u32) -> bool {
    &&& 0 < width <= MAX_WD_DECODED_IMAGE_DIMENSION
    &&& 0 < height <= MAX_WD_DECODED_IMAGE_DIMENSION
    &&& width * height * WD_DECODED_BYTES_PER_PIXEL <= MAX_WD_DECODED_IMAGE_BYTES
}

/// The text of the refusal of a `width` x `height` image.
pub open spec fn wd_dimensions_message(width: u32, height: u32) -> Seq<char> {
    "WD image dimensions "@ + decimal(width as nat) + "x"@ + decimal(height as nat) + " exceed the 4096px limit"@
}

/// Refuse a decoded image whose size the WD pipeline does not accept. Within
/// the per-side limit the decoded size always fits, so the one refusal is the
/// per-side one.
pub fn validate_wd_image_dimensions(width: u32, height: u32) -> (r: Result<(), InferError>)
    ensures
        r is Ok <==> wd_dimensions_ok(width, height),
        r is Ok <==> (0 < width <= MAX_WD_DECODED_IMAGE_DIMENSION && 0 < height <= MAX_WD_DECODED_IMAGE_DIMENSION),
        r matches Err(e) ==> (e matches InferError::InvalidModelOutput(m) && m@ == wd_dimensions_message(
            width,
            height,
        )),
{
    if width == 0 || height == 0 || width > MAX_WD_DECODED_IMAGE_DIMENSION || height > MAX_WD_DECODED_IMAGE_DIMENSION {
        let w = u64_text(width as u64);
        let h = u64_text(height as u64);
        let msg = concat(&["WD image dimensions ", w.as_str(), "x", h.as_str(), " exceed the 4096px limit"]);
        return Err(InferError::InvalidModelOutput(msg));
    }
    proof {
        assert(width * height * 4 <= 4096 * 4096 * 4) by (nonlinear_arith)
            requires
                width <= 4096,
                height <= 4096,
        ;
    }
    let pixels = (width as u64).checked_mul(height as u64);
    let decoded = match pixels {
        Some(p) => p.checked_mul(WD_DECODED_BYTES_PER_PIXEL),
        None => None,
    };
    match decoded {
        Some(bytes) => {
            if bytes > MAX_WD_DECODED_IMAGE_BYTES {
                let n = u64_text(bytes);
                let msg = concat(&["WD image requires ", n.as_str(), " decoded bytes, exceeding the 67108864-byte limit"]);
                Err(InferError::InvalidModelOutput(msg))
            } else {
                Ok(())
            }
        },
        None => Err(InferError::InvalidModelOutput(String::from_str("WD image dimensions overflow allocation accounting"))),
    }
}

/// The recipe every v1 WD profile spells out: a 448px BGR NHWC canvas padded
/// white, `selected_tags.csv` with categories `0`, `4` and `9`, the given
/// `general` and `character` thresholds (as `f32` bits) and `0.0` for
/// `rating`.
pub fn builtin_wd_profile(model_file: &str, general_thr_bits: u32, character_thr_bits: u32) -> (r: WdProfileSpec)
    ensures
        r.model_file@ == model_file@,
        r.preprocess_spec.input_size == 448,
        r.preprocess_spec.resize_strategy@ == "longest_side_pad"@,
        r.preprocess_spec.pad_color@ == seq![255u8, 255u8, 255u8],
        r.preprocess_spec.channel_order@ == "BGR"@,
        r.preprocess_spec.scale_bits == ONE_BITS,
        r.preprocess_spec.mean_bits is None,
        r.preprocess_spec.std_bits is None,
        r.preprocess_spec.layout@ == "NHWC"@,
        r.tag_source matches TagSourceSpec::Csv { file, delimiter, name_col, category_col, category_map }
            && file@ == "selected_tags.csv"@ && delimiter@ == ","@ && name_col@ == "name"@
            && category_col@ == "category"@ && category_map.deep_view() == seq![
                ("0"@, "general"@),
                ("4"@, "character"@),
                ("9"@, "rating"@),
            ],
        r.output_spec.output_key is None,
        r.output_spec.activation is None,
        r.default_thresholds@.len() == 3,
        r.default_thresholds@[0].0@ == "character"@ && r.default_thresholds@[0].1 == character_thr_bits,
        r.default_thresholds@[1].0@ == "general"@ && r.default_thresholds@[1].1 == general_thr_bits,
        r.default_thresholds@[2].0@ == "rating"@ && r.default_thresholds@[2].1 == 0,
        r.thresholds_unique(),
        r.categories_mode@ == "from_tag_source"@,
        r.supports_categories.deep_view() == seq!["general"@, "character"@, "rating"@],
{
    let mut preprocess = PreprocessSpec::with_input_size(448);
    preprocess.channel_order = String::from_str("BGR");
    let category_map = vec![
        (String::from_str("0"), String::from_str("general")),
        (String::from_str("4"), String::from_str("character")),
        (String::from_str("9"), String::from_str("rating")),
    ];
    let ghost cm = category_map@;
    let tag_source = TagSourceSpec::csv_with_defaults("selected_tags.csv", category_map);
    let default_thresholds = vec![
        (String::from_str("character"), character_thr_bits),
        (String::from_str("general"), general_thr_bits),
        (String::from_str("rating"), 0u32),
    ];
    let supports_categories = vec![
        String::from_str("general"),
        String::from_str("character"),
        String::from_str("rating"),
    ];
    let r = WdProfileSpec {
        model_file: String::from_str(model_file),
        preprocess_spec: preprocess,
        tag_source,
        output_spec: OutputSpec::none(),
        default_thresholds,
        categories_mode: default_categories_mode(),
        supports_categories,
    };
    proof {
        reveal_strlit("0");
        reveal_strlit("4");
        reveal_strlit("9");
        assert(r.tag_source->Csv_category_map@ == cm);
        assert(r.tag_source->Csv_category_map.deep_view() =~= seq![("0"@, "general"@), ("4"@, "character"@), ("9"@, "rating"@)]);
        assert(r.supports_categories.deep_view() =~= seq!["general"@, "character"@, "rating"@]);
        reveal_strlit("character");
        reveal_strlit("general");
        reveal_strlit("rating");
        assert("character"@[0] != "general"@[0] && "character"@[0] != "rating"@[0] && "general"@[0] != "rating"@[0]);
        assert(r.thresholds_unique());
    }
    r
}

/// An `f32` with these bits is a NaN.
pub open spec fn f32_is_nan(bits: u32) -> bool {
    bits & 0x7F80_0000u32 == 0x7F80_0000u32 && bits & 0x007F_FFFFu32 != 0
}

/// The value order of a non-NaN `f32` as an integer: the magnitude bits,
/// negated when the sign is set (so both zeros read as 0).
pub open spec fn f32_rank(bits: u32) -> int {
    let magnitude = (bits & 0x7FFF_FFFFu32) as int;
    if bits & 0x8000_0000u32 != 0 {
        -magnitude
    } else {
        magnitude
    }
}

/// IEEE `a < b` on `f32` bits: false when either is NaN.
pub open spec fn f32_lt(a: u32, b: u32) -> bool {
    !f32_is_nan(a) && !f32_is_nan(b) && f32_rank(a) < f32_rank(b)
}

/// Whether an `f32` with these bits is a NaN.
pub fn f32_is_nan_bits(bits: u32) -> (r: bool)
    ensures
        r == f32_is_nan(bits),
{
    bits & 0x7F80_0000u32 == 0x7F80_0000u32 && bits & 0x007F_FFFFu32 != 0
}

/// `f32_rank` shifted to be non-negative.
fn f32_order_key(bits: u32) -> (r: u64)
    ensures
        r as int == f32_rank(bits) + 0x8000_0000,
{
    let magnitude: u32 = bits & 0x7FFF_FFFFu32;
    proof {
        assert(bits & 0x7FFF_FFFFu32 <= 0x7FFF_FFFFu32) by (bit_vector);
    }
    if bits & 0x8000_0000u32 != 0 {
        0x8000_0000u64 - magnitude as u64
    } else {
        0x8000_0000u64 + magnitude as u64
    }
}

/// IEEE `a < b` on `f32` bits.
pub fn f32_less(a: u32, b: u32) -> (r: bool)
    ensures
        r == f32_lt(a, b),
{
    if f32_is_nan_bits(a) || f32_is_nan_bits(b) {
        return false;
    }
    f32_order_key(a) < f32_order_key(b)
}

/// One predicted tag; the confidence is carried by its `f32` bits.
#[derive(Debug, Clone, PartialEq, Eq)]
pub struct TagPrediction {
    pub tag: String,
    pub confidence_bits: u32,
    pub category: String,
}

/// The predicted tags, best first, and the rating label.
#[derive(Debug, Clone, PartialEq, Eq)]
pub struct WdResult {
    pub tags: Vec<TagPrediction>,
    pub rating: String,
}

/// The best rating so far after the first `k` rating positions: a position
/// counts when it has a score and a tag, and replaces the best only with a
/// strictly higher score, starting from `0.0`.
pub open spec fn best_rating(tags: Seq<(Seq<char>, Seq<char>)>, scores: Seq<u32>, positions: Seq<usize>) -> Option<(u32, Seq<char>)>
    decreases positions.len(),
{
    if positions.len() == 0 {
        None
    } else {
        let prev = best_rating(tags, scores, positions.drop_last());
        let i = positions.last() as int;
        let floor: u32 = match prev {
            Some(b) => b.0,
            None => 0,
        };
        if i < scores.len() && i < tags.len() && f32_lt(floor, scores[i]) {
            Some((scores[i], tags[i].0))
        } else {
            prev
        }
    }
}

/// Rating position `q` has a score and a tag.
pub open spec fn rating_candidate(tags: Seq<(Seq<char>, Seq<char>)>, scores: Seq<u32>, positions: Seq<usize>, q: int) -> bool {
    0 <= q < positions.len() && positions[q] < scores.len() && positions[q] < tags.len()
}

/// `best_rating` picks the first rating position whose score is the highest
/// among those scoring above `0.0` (a NaN score is never above anything); it
/// finds none exactly when no position scores above `0.0`.
pub proof fn law_best_rating_is_first_positive_maximum(
    tags: Seq<(Seq<char>, Seq<char>)>,
    scores: Seq<u32>,
    positions: Seq<usize>,
)
    ensures
        best_rating(tags, scores, positions) is None <==> !exists|q: int|
            rating_candidate(tags, scores, positions, q) && f32_lt(0, #[trigger] scores[positions[q] as int]),
        best_rating(tags, scores, positions) matches Some(b) ==> exists|p: int|
            #![trigger positions[p]]
            rating_candidate(tags, scores, positions, p) && f32_lt(0, b.0) && b == (
                scores[positions[p] as int],
                tags[positions[p] as int].0,
            ) && (forall|q: int|
                rating_candidate(tags, scores, positions, q) ==> !f32_lt(b.0, #[trigger] scores[positions[q] as int]))
                && (forall|q: int|
                rating_candidate(tags, scores, positions, q) && q < p && f32_lt(0, scores[positions[q] as int])
                    ==> f32_lt(#[trigger] scores[positions[q] as int], b.0)),
    decreases positions.len(),
{
    assert(!f32_is_nan(0u32)) by (bit_vector);
    if positions.len() > 0 {
        let prev_pos = positions.drop_last();
        law_best_rating_is_first_positive_maximum(tags, scores, prev_pos);
        assert forall|q: int| 0 <= q < prev_pos.len() implies prev_pos[q] == positions[q] by {}
        assert forall|q: int|
            rating_candidate(tags, scores, prev_pos, q) <==> (rating_candidate(tags, scores, positions, q) && q
                < positions.len() - 1) by {}
        let k = positions.len() - 1;
        let prev = best_rating(tags, scores, prev_pos);
        if let Some(b) = prev {
            let p = choose|p: int|
                #![trigger prev_pos[p]]
                rating_candidate(tags, scores, prev_pos, p) && f32_lt(0, b.0) && b == (
                    scores[prev_pos[p] as int],
                    tags[prev_pos[p] as int].0,
                ) && (forall|q: int|
                    rating_candidate(tags, scores, prev_pos, q) ==> !f32_lt(b.0, #[trigger] scores[prev_pos[q] as int]))
                    && (forall|q: int|
                    rating_candidate(tags, scores, prev_pos, q) && q < p && f32_lt(0, scores[prev_pos[q] as int])
                        ==> f32_lt(#[trigger] scores[prev_pos[q] as int], b.0));
            assert(positions[p] == prev_pos[p]);
        }
    }
}

/// With no NaN score at a rating position, `seeded_rating` picks the first
/// rating position whose score is the highest; it finds none exactly when no
/// position has a score and a tag. (A NaN there has no place in the order:
/// the first position seeds the comparison and a NaN is never beaten.)
pub proof fn law_seeded_rating_is_first_maximum(
    tags: Seq<(Seq<char>, Seq<char>)>,
    scores: Seq<u32>,
    positions: Seq<usize>,
)
    requires
        forall|q: int|
            rating_candidate(tags, scores, positions, q) ==> !f32_is_nan(#[trigger] scores[positions[q] as int]),
    ensures
        seeded_rating(tags, scores, positions) is None <==> !exists|q: int|
            #[trigger] rating_candidate(tags, scores, positions, q),
        seeded_rating(tags, scores, positions) matches Some(b) ==> exists|p: int|
            #![trigger positions[p]]
            rating_candidate(tags, scores, positions, p) && b == (
                scores[positions[p] as int],
                tags[positions[p] as int].0,
            ) && (forall|q: int|
                rating_candidate(tags, scores, positions, q) ==> !f32_lt(b.0, #[trigger] scores[positions[q] as int]))
                && (forall|q: int|
                rating_candidate(tags, scores, positions, q) && q < p ==> f32_lt(
                    #[trigger] scores[positions[q] as int],
                    b.0,
                )),
    decreases positions.len(),
{
    if positions.len() > 0 {
        let prev_pos = positions.drop_last();
        law_seeded_rating_is_first_maximum(tags, scores, prev_pos);
        assert forall|q: int| 0 <= q < prev_pos.len() implies prev_pos[q] == positions[q] by {}
        assert forall|q: int|
            rating_candidate(tags, scores, prev_pos, q) <==> (rating_candidate(tags, scores, positions, q) && q
                < positions.len() - 1) by {}
        let k = positions.len() - 1;
        let prev = seeded_rating(tags, scores, prev_pos);
        if rating_candidate(tags, scores, positions, k) {
            assert(!f32_is_nan(scores[positions[k] as int]));
        }
        if let Some(b) = prev {
            let p = choose|p: int|
                #![trigger prev_pos[p]]
                rating_candidate(tags, scores, prev_pos, p) && b == (
                    scores[prev_pos[p] as int],
                    tags[prev_pos[p] as int].0,
                ) && (forall|q: int|
                    rating_candidate(tags, scores, prev_pos, q) ==> !f32_lt(b.0, #[trigger] scores[prev_pos[q] as int]))
                    && (forall|q: int|
                    rating_candidate(tags, scores, prev_pos, q) && q < p ==> f32_lt(
                        #[trigger] scores[prev_pos[q] as int],
                        b.0,
                    ));
            assert(positions[p] == prev_pos[p]);
            assert(!f32_is_nan(b.0));
        } else {
            assert(!exists|q: int| #[trigger] rating_candidate(tags, scores, prev_pos, q));
        }
    }
}

/// The rating label: the best rating tag, else `general`.
pub open spec fn rating_label(tags: Seq<(Seq<char>, Seq<char>)>, scores: Seq<u32>, positions: Seq<usize>) -> Seq<char> {
    match best_rating(tags, scores, positions) {
        Some(b) => b.1,
        None => "general"@,
    }
}

/// The predictions among the first `k` tags, in tag order: every non-rating
/// tag with a score no lower than its category's threshold.
pub open spec fn passing_tags(
    tags: Seq<(Seq<char>, Seq<char>)>,
    scores: Seq<u32>,
    spec: WdProfileSpec,
    k: nat,
) -> Seq<(Seq<char>, u32, Seq<char>)>
    decreases k,
{
    if k == 0 {
        Seq::empty()
    } else {
        let prev = passing_tags(tags, scores, spec, (k - 1) as nat);
        let i = k - 1;
        if i < scores.len() && i < tags.len() && tags[i].1 != "rating"@ && !f32_lt(
            scores[i],
            spec.spec_threshold_for(tags[i].1),
        ) {
            prev.push((tags[i].0, scores[i], tags[i].1))
        } else {
            prev
        }
    }
}

/// The plain-value form of a prediction.
pub open spec fn prediction_view(p: TagPrediction) -> (Seq<char>, u32, Seq<char>) {
    (p.tag@, p.confidence_bits, p.category@)
}

/// The order keys of the predictions' confidences.
pub open spec fn confidence_keys(preds: Seq<(Seq<char>, u32, Seq<char>)>) -> Seq<u64> {
    preds.map_values(|p: (Seq<char>, u32, Seq<char>)| (f32_rank(p.1) + 0x8000_0000) as u64)
}

/// The predictions reordered by descending confidence, equal confidences
/// keeping their order.
fn sort_predictions(preds: Vec<TagPrediction>) -> (r: Vec<TagPrediction>)
    ensures
        ({
            let pv = preds@.map_values(|p: TagPrediction| prediction_view(p));
            exists|ord: Seq<usize>|
                #![trigger is_permutation(ord, pv.len())]
                is_permutation(ord, pv.len()) && ranked_desc(confidence_keys(pv), false, ord)
                    && r@.map_values(|p: TagPrediction| prediction_view(p)) == ord.map_values(|i: usize| pv[i as int])
        }),
{
    let ghost passing = preds@.map_values(|p: TagPrediction| prediction_view(p));
    let mut keys: Vec<u64> = Vec::new();
    let mut k: usize = 0;
    while k < preds.len()
        invariant
            k <= preds@.len(),
            passing == preds@.map_values(|p: TagPrediction| prediction_view(p)),
            keys@ == confidence_keys(passing).take(k as int),
        decreases preds@.len() - k,
    {
        let key = f32_order_key(preds[k].confidence_bits);
        keys.push(key);
        proof {
            assert(keys@ =~= confidence_keys(passing).take(k + 1));
        }
        k = k + 1;
    }
    proof {
        assert(keys@ =~= confidence_keys(passing));
    }
    let ord = order_by_key_desc(&keys, false);
    let mut sorted: Vec<TagPrediction> = Vec::new();
    let mut m: usize = 0;
    while m < ord.len()
        invariant
            m <= ord@.len(),
            ord@.len() == preds@.len(),
            is_permutation(ord@, preds@.len() as nat),
            passing == preds@.map_values(|p: TagPrediction| prediction_view(p)),
            sorted@.map_values(|p: TagPrediction| prediction_view(p)) == ord@.take(m as int).map_values(
                |q: usize| passing[q as int],
            ),
        decreases ord@.len() - m,
    {
        let q = ord[m];
        let p = TagPrediction {
            tag: preds[q].tag.clone(),
            confidence_bits: preds[q].confidence_bits,
            category: preds[q].category.clone(),
        };
        let ghost before = sorted@.map_values(|p: TagPrediction| prediction_view(p));
        sorted.push(p);
        proof {
            assert(ord@.take(m + 1) =~= ord@.take(m as int).push(q));
            assert(sorted@.map_values(|p: TagPrediction| prediction_view(p)) =~= before.push(passing[q as int]));
            assert(sorted@.map_values(|p: TagPrediction| prediction_view(p)) =~= ord@.take(m + 1).map_values(
                |q: usize| passing[q as int],
            ));
        }
        m = m + 1;
    }
    proof {
        assert(ord@.take(ord@.len() as int) =~= ord@);
        assert(is_permutation(ord@, passing.len()));
    }
    sorted
}

/// No score that would be ranked is NaN: every non-rating tag that has a
/// score. (Such scores are sorted, and NaN has no place in that order.)
pub open spec fn ranked_scores_ok(tags: Seq<(Seq<char>, Seq<char>)>, scores: Seq<u32>) -> bool {
    forall|i: int| 0 <= i < tags.len() && i < scores.len() && tags[i].1 != "rating"@ ==> !f32_is_nan(#[trigger] scores[i])
}

/// Whether the scores meet `ranked_scores_ok` for this vocabulary.
pub fn scores_rankable(tag_meta: &TagMeta, scores: &Vec<u32>) -> (r: bool)
    ensures
        r == ranked_scores_ok(tag_meta.tags.deep_view(), scores@),
{
    let ghost tv = tag_meta.tags.deep_view();
    proof {
        reveal_strlit("rating");
    }
    let mut i: usize = 0;
    while i < tag_meta.tags.len() && i < scores.len()
        invariant
            tv == tag_meta.tags.deep_view(),
            i <= tv.len(),
            forall|j: int| 0 <= j < i && j < scores@.len() && tv[j].1 != "rating"@ ==> !f32_is_nan(#[trigger] scores@[j]),
        decreases tv.len() - i,
    {
        proof {
            assert(tv[i as int].1 == tag_meta.tags@[i as int].1@);
        }
        if !text_is(tag_meta.tags[i].1.as_str(), "rating") && f32_is_nan_bits(scores[i]) {
            return false;
        }
        i = i + 1;
    }
    true
}

/// Turn the scores into the result: the rating label (see `rating_label`)
/// and the passing tags (see `passing_tags`) sorted by descending
/// confidence, equal confidences (both zeros included) keeping tag order.
/// No ranked score may be NaN (see `ranked_scores_ok`), and the profile's
/// thresholds name each category once.
pub fn build_result(tag_meta: &TagMeta, spec: &WdProfileSpec, scores: &Vec<u32>) -> (r: WdResult)
    requires
        ranked_scores_ok(tag_meta.tags.deep_view(), scores@),
        spec.thresholds_unique(),
    ensures
        r.rating@ == rating_label(tag_meta.tags.deep_view(), scores@, tag_meta.rating_indices@),
        forall|j: int|
            0 <= j < r.tags@.len() ==> (#[trigger] r.tags@[j]).category@ != "rating"@ && !f32_lt(
                r.tags@[j].confidence_bits,
                spec.spec_threshold_for(r.tags@[j].category@),
            ),
        ({
            let tags = tag_meta.tags.deep_view();
            forall|p: TagPrediction|
                #[trigger] r.tags@.contains(p) ==> exists|i: int|
                    0 <= i < tags.len() && i < scores@.len() && tags[i].1 != "rating"@ && !f32_lt(
                        scores@[i],
                        spec.spec_threshold_for(tags[i].1),
                    ) && prediction_view(p) == (tags[i].0, scores@[i], tags[i].1)
        }),
        ({
            let tags = tag_meta.tags.deep_view();
            forall|i: int|
                0 <= i < tags.len() && i < scores@.len() && (#[trigger] tags[i]).1 != "rating"@ && !f32_lt(
                    scores@[i],
                    spec.spec_threshold_for(tags[i].1),
                ) ==> exists|j: int|
                    0 <= j < r.tags@.len() && prediction_view(r.tags@[j]) == (tags[i].0, scores@[i], tags[i].1)
        }),
        ({
            let passing = passing_tags(tag_meta.tags.deep_view(), scores@, *spec, tag_meta.tags@.len());
            exists|ord: Seq<usize>|
                #![trigger is_permutation(ord, passing.len())]
                is_permutation(ord, passing.len()) && ranked_desc(confidence_keys(passing), false, ord)
                    && r.tags@.map_values(|p: TagPrediction| prediction_view(p)) == ord.map_values(
                    |i: usize| passing[i as int],
                )
        }),
{
    let ghost tv = tag_meta.tags.deep_view();
    let ghost positions = tag_meta.rating_indices@;
    let mut best: Option<(u32, usize)> = None;
    let mut j: usize = 0;
    proof {
        assert(positions.take(0) =~= Seq::<usize>::empty());
    }
    while j < tag_meta.rating_indices.len()
        invariant
            tv == tag_meta.tags.deep_view(),
            positions == tag_meta.rating_indices@,
            j <= positions.len(),
            match best_rating(tv, scores@, positions.take(j as int)) {
                Some(b) => best matches Some(x) && x.0 == b.0 && x.1 < tv.len() && tv[x.1 as int].0 == b.1,
                None => best is None,
            },
        decreases positions.len() - j,
    {
        let idx = tag_meta.rating_indices[j];
        proof {
            assert(positions.take(j + 1).drop_last() =~= positions.take(j as int));
            assert(positions.take(j + 1).last() == idx);
        }
        if idx < scores.len() && idx < tag_meta.tags.len() {
            let s = scores[idx];
            let floor: u32 = match best {
                Some(b) => b.0,
                None => 0,
            };
            if f32_less(floor, s) {
                best = Some((s, idx));
                proof {
                    assert(tv[idx as int].0 == tag_meta.tags@[idx as int].0@);
                }
            }
        }
        j = j + 1;
    }
    proof {
        assert(positions.take(j as int) =~= positions);
        reveal_strlit("general");
    }
    let rating = match best {
        Some(b) => tag_meta.tags[b.1].0.clone(),
        None => String::from_str("general"),
    };
    let mut preds: Vec<TagPrediction> = Vec::new();
    let mut i: usize = 0;
    let n = tag_meta.tags.len();
    proof {
        reveal_strlit("rating");
    }
    while i < n
        invariant
            tv == tag_meta.tags.deep_view(),
            spec.thresholds_unique(),
            n == tv.len(),
            i <= n,
            preds@.map_values(|p: TagPrediction| prediction_view(p)) == passing_tags(tv, scores@, *spec, i as nat),
        ensures
            preds@.map_values(|p: TagPrediction| prediction_view(p)) == passing_tags(tv, scores@, *spec, n as nat),
        decreases n - i,
    {
        if i >= scores.len() {
            proof {
                lemma_passing_tags_stop(tv, scores@, *spec, i as nat, n as nat);
            }
            break;
        }
        let conf = scores[i];
        let name = &tag_meta.tags[i].0;
        let cat = &tag_meta.tags[i].1;
        proof {
            assert(tv[i as int] == (name@, cat@));
        }
        let ghost before = preds@.map_values(|p: TagPrediction| prediction_view(p));
        if !text_is(cat.as_str(), "rating") {
            let thr = spec.threshold_for(cat.as_str());
            if !f32_less(conf, thr) {
                preds.push(TagPrediction { tag: name.clone(), confidence_bits: conf, category: cat.clone() });
                proof {
                    assert(preds@.map_values(|p: TagPrediction| prediction_view(p)) =~= before.push((name@, conf, cat@)));
                }
            }
        }
        i = i + 1;
    }
    let ghost passing = preds@.map_values(|p: TagPrediction| prediction_view(p));
    let sorted = sort_predictions(preds);
    proof {
        let ord = choose|ord: Seq<usize>|
            #![trigger is_permutation(ord, passing.len())]
            is_permutation(ord, passing.len()) && ranked_desc(confidence_keys(passing), false, ord)
                && sorted@.map_values(|p: TagPrediction| prediction_view(p)) == ord.map_values(|i: usize| passing[i as int]);
        lemma_reordered_passing_tags(tv, scores@, *spec, sorted@, ord);
    }
    let ghost sv = sorted@;
    let r = WdResult { tags: sorted, rating };
    proof {
        assert forall|i: int|
            0 <= i < tv.len() && i < scores@.len() && (#[trigger] tv[i]).1 != "rating"@ && !f32_lt(
                scores@[i],
                spec.spec_threshold_for(tv[i].1),
            ) implies exists|j: int| 0 <= j < r.tags@.len() && prediction_view(r.tags@[j]) == (tv[i].0, scores@[i], tv[i].1) by {
            let j = choose|j: int| 0 <= j < sv.len() && prediction_view(sv[j]) == (tv[i].0, scores@[i], tv[i].1);
            assert(r.tags@[j] == sv[j]);
        }
    }
    r
}

/// The best rating after the first `k` rating positions when the first
/// position with a score and a tag seeds the comparison: a later one replaces
/// it only with a strictly higher score.
pub open spec fn seeded_rating(tags: Seq<(Seq<char>, Seq<char>)>, scores: Seq<u32>, positions: Seq<usize>) -> Option<(u32, Seq<char>)>
    decreases positions.len(),
{
    if positions.len() == 0 {
        None
    } else {
        let prev = seeded_rating(tags, scores, positions.drop_last());
        let i = positions.last() as int;
        if i < scores.len() && i < tags.len() && (match prev {
            Some(b) => f32_lt(b.0, scores[i]),
            None => true,
        }) {
            Some((scores[i], tags[i].0))
        } else {
            prev
        }
    }
}

/// The predictions among the first `k` tags, in tag order, under two
/// thresholds: a `character` tag needs `character_bits`, every other
/// non-rating tag `general_bits`.
pub open spec fn passing_two_thresholds(
    tags: Seq<(Seq<char>, Seq<char>)>,
    scores: Seq<u32>,
    general_bits: u32,
    character_bits: u32,
    k: nat,
) -> Seq<(Seq<char>, u32, Seq<char>)>
    decreases k,
{
    if k == 0 {
        Seq::empty()
    } else {
        let prev = passing_two_thresholds(tags, scores, general_bits, character_bits, (k - 1) as nat);
        let i = k - 1;
        let thr = if tags[i].1 == "character"@ {
            character_bits
        } else {
            general_bits
        };
        if i < scores.len() && i < tags.len() && tags[i].1 != "rating"@ && !f32_lt(scores[i], thr) {
            prev.push((tags[i].0, scores[i], tags[i].1))
        } else {
            prev
        }
    }
}

/// Turn the scores into the result under two thresholds: the rating label is
/// the best rating tag by `seeded_rating` (else `general`), and the passing
/// tags (see `passing_two_thresholds`) come sorted by descending confidence,
/// equal confidences keeping tag order. No ranked score may be NaN (see
/// `ranked_scores_ok`).
pub fn rank_tags(tag_meta: &TagMeta, general_thr_bits: u32, character_thr_bits: u32, scores: &Vec<u32>) -> (r: WdResult)
    requires
        ranked_scores_ok(tag_meta.tags.deep_view(), scores@),
    ensures
        forall|j: int|
            0 <= j < r.tags@.len() ==> (#[trigger] r.tags@[j]).category@ != "rating"@ && !f32_lt(
                r.tags@[j].confidence_bits,
                if r.tags@[j].category@ == "character"@ {
                    character_thr_bits
                } else {
                    general_thr_bits
                },
            ),
        ({
            let tags = tag_meta.tags.deep_view();
            forall|p: TagPrediction|
                #[trigger] r.tags@.contains(p) ==> exists|i: int|
                    0 <= i < tags.len() && i < scores@.len() && tags[i].1 != "rating"@ && !f32_lt(
                        scores@[i],
                        if tags[i].1 == "character"@ {
                            character_thr_bits
                        } else {
                            general_thr_bits
                        },
                    ) && prediction_view(p) == (tags[i].0, scores@[i], tags[i].1)
        }),
        ({
            let tags = tag_meta.tags.deep_view();
            forall|i: int|
                0 <= i < tags.len() && i < scores@.len() && (#[trigger] tags[i]).1 != "rating"@ && !f32_lt(
                    scores@[i],
                    if tags[i].1 == "character"@ {
                        character_thr_bits
                    } else {
                        general_thr_bits
                    },
                ) ==> exists|j: int|
                    0 <= j < r.tags@.len() && prediction_view(r.tags@[j]) == (tags[i].0, scores@[i], tags[i].1)
        }),
        r.rating@ == (match seeded_rating(tag_meta.tags.deep_view(), scores@, tag_meta.rating_indices@) {
            Some(b) => b.1,
            None => "general"@,
        }),
        ({
            let passing = passing_two_thresholds(
                tag_meta.tags.deep_view(),
                scores@,
                general_thr_bits,
                character_thr_bits,
                tag_meta.tags@.len(),
            );
            exists|ord: Seq<usize>|
                #![trigger is_permutation(ord, passing.len())]
                is_permutation(ord, passing.len()) && ranked_desc(confidence_keys(passing), false, ord)
                    && r.tags@.map_values(|p: TagPrediction| prediction_view(p)) == ord.map_values(
                    |i: usize| passing[i as int],
                )
        }),
{
    let ghost tv = tag_meta.tags.deep_view();
    let ghost positions = tag_meta.rating_indices@;
    let mut best: Option<(u32, usize)> = None;
    let mut j: usize = 0;
    proof {
        assert(positions.take(0) =~= Seq::<usize>::empty());
    }
    while j < tag_meta.rating_indices.len()
        invariant
            tv == tag_meta.tags.deep_view(),
            positions == tag_meta.rating_indices@,
            j <= positions.len(),
            match seeded_rating(tv, scores@, positions.take(j as int)) {
                Some(b) => best matches Some(x) && x.0 == b.0 && x.1 < tv.len() && tv[x.1 as int].0 == b.1,
                None => best is None,
            },
        decreases positions.len() - j,
    {
        let idx = tag_meta.rating_indices[j];
        proof {
            assert(positions.take(j + 1).drop_last() =~= positions.take(j as int));
            assert(positions.take(j + 1).last() == idx);
        }
        if idx < scores.len() && idx < tag_meta.tags.len() {
            let s = scores[idx];
            let better = match best {
                Some(b) => f32_less(b.0, s),
                None => true,
            };
            if better {
                best = Some((s, idx));
                proof {
                    assert(tv[idx as int].0 == tag_meta.tags@[idx as int].0@);
                }
            }
        }
        j = j + 1;
    }
    proof {
        assert(positions.take(j as int) =~= positions);
        reveal_strlit("general");
    }
    let rating = match best {
        Some(b) => tag_meta.tags[b.1].0.clone(),
        None => String::from_str("general"),
    };
    let mut preds: Vec<TagPrediction> = Vec::new();
    let mut i: usize = 0;
    let n = tag_meta.tags.len();
    proof {
        reveal_strlit("rating");
        reveal_strlit("character");
    }
    while i < n
        invariant
            tv == tag_meta.tags.deep_view(),
            n == tv.len(),
            i <= n,
            preds@.map_values(|p: TagPrediction| prediction_view(p)) == passing_two_thresholds(
                tv,
                scores@,
                general_thr_bits,
                character_thr_bits,
                i as nat,
            ),
        ensures
            preds@.map_values(|p: TagPrediction| prediction_view(p)) == passing_two_thresholds(
                tv,
                scores@,
                general_thr_bits,
                character_thr_bits,
                n as nat,
            ),
        decreases n - i,
    {
        if i >= scores.len() {
            proof {
                lemma_two_thresholds_stop(tv, scores@, general_thr_bits, character_thr_bits, i as nat, n as nat);
            }
            break;
        }
        let conf = scores[i];
        let name = &tag_meta.tags[i].0;
        let cat = &tag_meta.tags[i].1;
        proof {
            assert(tv[i as int] == (name@, cat@));
        }
        let ghost before = preds@.map_values(|p: TagPrediction| prediction_view(p));
        if !text_is(cat.as_str(), "rating") {
            let thr = if text_is(cat.as_str(), "character") {
                character_thr_bits
            } else {
                general_thr_bits
            };
            if !f32_less(conf, thr) {
                preds.push(TagPrediction { tag: name.clone(), confidence_bits: conf, category: cat.clone() });
                proof {
                    assert(preds@.map_values(|p: TagPrediction| prediction_view(p)) =~= before.push((name@, conf, cat@)));
                }
            }
        }
        i = i + 1;
    }
    let ghost passing = preds@.map_values(|p: TagPrediction| prediction_view(p));
    let sorted = sort_predictions(preds);
    proof {
        let ord = choose|ord: Seq<usize>|
            #![trigger is_permutation(ord, passing.len())]
            is_permutation(ord, passing.len()) && ranked_desc(confidence_keys(passing), false, ord)
                && sorted@.map_values(|p: TagPrediction| prediction_view(p)) == ord.map_values(|i: usize| passing[i as int]);
        lemma_reordered_two_thresholds(tv, scores@, general_thr_bits, character_thr_bits, sorted@, ord);
    }
    let ghost sv = sorted@;
    let r = WdResult { tags: sorted, rating };
    proof {
        assert forall|i: int|
            0 <= i < tv.len() && i < scores@.len() && (#[trigger] tv[i]).1 != "rating"@ && !f32_lt(
                scores@[i],
                if tv[i].1 == "character"@ {
                    character_thr_bits
                } else {
                    general_thr_bits
                },
            ) implies exists|j: int| 0 <= j < r.tags@.len() && prediction_view(r.tags@[j]) == (tv[i].0, scores@[i], tv[i].1) by {
            let j = choose|j: int| 0 <= j < sv.len() && prediction_view(sv[j]) == (tv[i].0, scores@[i], tv[i].1);
            assert(r.tags@[j] == sv[j]);
        }
    }
    r
}

proof fn lemma_two_thresholds_stop(
    tags: Seq<(Seq<char>, Seq<char>)>,
    scores: Seq<u32>,
    general_bits: u32,
    character_bits: u32,
    i: nat,
    n: nat,
)
    requires
        scores.len() <= i <= n,
    ensures
        passing_two_thresholds(tags, scores, general_bits, character_bits, n) == passing_two_thresholds(
            tags,
            scores,
            general_bits,
            character_bits,
            i,
        ),
    decreases n - i,
{
    if i < n {
        lemma_two_thresholds_stop(tags, scores, general_bits, character_bits, i, (n - 1) as nat);
    }
}

proof fn lemma_passing_tags_stop(
    tags: Seq<(Seq<char>, Seq<char>)>,
    scores: Seq<u32>,
    spec: WdProfileSpec,
    i: nat,
    n: nat,
)
    requires
        scores.len() <= i <= n,
    ensures
        passing_tags(tags, scores, spec, n) == passing_tags(tags, scores, spec, i),
    decreases n - i,
{
    if i < n {
        lemma_passing_tags_stop(tags, scores, spec, i, (n - 1) as nat);
    }
}

/// The passing tags, reordered by a permutation, are exactly the non-rating
/// tags whose score is no lower than their own category's threshold.
proof fn lemma_reordered_passing_tags(
    tags: Seq<(Seq<char>, Seq<char>)>,
    scores: Seq<u32>,
    spec: WdProfileSpec,
    preds: Seq<TagPrediction>,
    ord: Seq<usize>,
)
    requires
        is_permutation(ord, passing_tags(tags, scores, spec, tags.len()).len()),
        preds.map_values(|p: TagPrediction| prediction_view(p)) == ord.map_values(
            |i: usize| passing_tags(tags, scores, spec, tags.len())[i as int],
        ),
    ensures
        forall|j: int|
            0 <= j < preds.len() ==> (#[trigger] preds[j]).category@ != "rating"@ && !f32_lt(
                preds[j].confidence_bits,
                spec.spec_threshold_for(preds[j].category@),
            ),
        forall|p: TagPrediction|
            #[trigger] preds.contains(p) ==> exists|i: int|
                0 <= i < tags.len() && i < scores.len() && tags[i].1 != "rating"@ && !f32_lt(
                    scores[i],
                    spec.spec_threshold_for(tags[i].1),
                ) && prediction_view(p) == (tags[i].0, scores[i], tags[i].1),
        forall|i: int|
            0 <= i < tags.len() && i < scores.len() && (#[trigger] tags[i]).1 != "rating"@ && !f32_lt(
                scores[i],
                spec.spec_threshold_for(tags[i].1),
            ) ==> exists|j: int| 0 <= j < preds.len() && prediction_view(preds[j]) == (tags[i].0, scores[i], tags[i].1),
{
    let passing = passing_tags(tags, scores, spec, tags.len());
    let rv = preds.map_values(|p: TagPrediction| prediction_view(p));
    assert(rv.len() == ord.len());
    lemma_permutation_onto(ord, passing.len());
    lemma_passing_tags_members(tags, scores, spec, tags.len());
    assert forall|p: TagPrediction| #[trigger] preds.contains(p) implies exists|i: int|
        0 <= i < tags.len() && i < scores.len() && tags[i].1 != "rating"@ && !f32_lt(
            scores[i],
            spec.spec_threshold_for(tags[i].1),
        ) && prediction_view(p) == (tags[i].0, scores[i], tags[i].1) by {
        let k = choose|k: int| 0 <= k < preds.len() && preds[k] == p;
        let m = ord[k] as int;
        assert(0 <= m < passing.len());
        assert(rv[k] == passing[m]);
        assert(rv[k] == prediction_view(p));
    }
    assert forall|j: int| 0 <= j < preds.len() implies (#[trigger] preds[j]).category@ != "rating"@ && !f32_lt(
        preds[j].confidence_bits,
        spec.spec_threshold_for(preds[j].category@),
    ) by {
        assert(preds.contains(preds[j]));
    }
    assert forall|i: int|
        0 <= i < tags.len() && i < scores.len() && (#[trigger] tags[i]).1 != "rating"@ && !f32_lt(
            scores[i],
            spec.spec_threshold_for(tags[i].1),
        ) implies exists|j: int| 0 <= j < preds.len() && prediction_view(preds[j]) == (tags[i].0, scores[i], tags[i].1) by {
        let m = choose|m: int| 0 <= m < passing.len() && passing[m] == (tags[i].0, scores[i], tags[i].1);
        assert(reaches(ord, m));
        let k = choose|k: int| 0 <= k < ord.len() && ord[k] == m;
        assert(rv[k] == passing[m]);
        assert(rv[k] == prediction_view(preds[k]));
    }
}

/// The passing tags under two thresholds, reordered by a permutation, are
/// exactly the non-rating tags whose score is no lower than
/// `character_bits` for a `character` tag and `general_bits` otherwise.
proof fn lemma_reordered_two_thresholds(
    tags: Seq<(Seq<char>, Seq<char>)>,
    scores: Seq<u32>,
    general_bits: u32,
    character_bits: u32,
    preds: Seq<TagPrediction>,
    ord: Seq<usize>,
)
    requires
        is_permutation(ord, passing_two_thresholds(tags, scores, general_bits, character_bits, tags.len()).len()),
        preds.map_values(|p: TagPrediction| prediction_view(p)) == ord.map_values(
            |i: usize| passing_two_thresholds(tags, scores, general_bits, character_bits, tags.len())[i as int],
        ),
    ensures
        forall|j: int|
            0 <= j < preds.len() ==> (#[trigger] preds[j]).category@ != "rating"@ && !f32_lt(
                preds[j].confidence_bits,
                if preds[j].category@ == "character"@ {
                    character_bits
                } else {
                    general_bits
                },
            ),
        forall|p: TagPrediction|
            #[trigger] preds.contains(p) ==> exists|i: int|
                0 <= i < tags.len() && i < scores.len() && tags[i].1 != "rating"@ && !f32_lt(
                    scores[i],
                    if tags[i].1 == "character"@ {
                        character_bits
                    } else {
                        general_bits
                    },
                ) && prediction_view(p) == (tags[i].0, scores[i], tags[i].1),
        forall|i: int|
            0 <= i < tags.len() && i < scores.len() && (#[trigger] tags[i]).1 != "rating"@ && !f32_lt(
                scores[i],
                if tags[i].1 == "character"@ {
                        character_bits
                    } else {
                        general_bits
                    },
            ) ==> exists|j: int| 0 <= j < preds.len() && prediction_view(preds[j]) == (tags[i].0, scores[i], tags[i].1),
{
    let passing = passing_two_thresholds(tags, scores, general_bits, character_bits, tags.len());
    let rv = preds.map_values(|p: TagPrediction| prediction_view(p));
    assert(rv.len() == ord.len());
    lemma_permutation_onto(ord, passing.len());
    lemma_two_thresholds_members(tags, scores, general_bits, character_bits, tags.len());
    assert forall|p: TagPrediction| #[trigger] preds.contains(p) implies exists|i: int|
        0 <= i < tags.len() && i < scores.len() && tags[i].1 != "rating"@ && !f32_lt(
            scores[i],
            if tags[i].1 == "character"@ {
                        character_bits
                    } else {
                        general_bits
                    },
        ) && prediction_view(p) == (tags[i].0, scores[i], tags[i].1) by {
        let k = choose|k: int| 0 <= k < preds.len() && preds[k] == p;
        let m = ord[k] as int;
        assert(0 <= m < passing.len());
        assert(rv[k] == passing[m]);
        assert(rv[k] == prediction_view(p));
    }
    assert forall|j: int| 0 <= j < preds.len() implies (#[trigger] preds[j]).category@ != "rating"@ && !f32_lt(
        preds[j].confidence_bits,
        if preds[j].category@ == "character"@ {
                    character_bits
                } else {
                    general_bits
                },
    ) by {
        assert(preds.contains(preds[j]));
    }
    assert forall|i: int|
        0 <= i < tags.len() && i < scores.len() && (#[trigger] tags[i]).1 != "rating"@ && !f32_lt(
            scores[i],
            if tags[i].1 == "character"@ {
                        character_bits
                    } else {
                        general_bits
                    },
        ) implies exists|j: int| 0 <= j < preds.len() && prediction_view(preds[j]) == (tags[i].0, scores[i], tags[i].1) by {
        let m = choose|m: int| 0 <= m < passing.len() && passing[m] == (tags[i].0, scores[i], tags[i].1);
        assert(reaches(ord, m));
        let k = choose|k: int| 0 <= k < ord.len() && ord[k] == m;
        assert(rv[k] == passing[m]);
        assert(rv[k] == prediction_view(preds[k]));
    }
}

/// What `passing_tags` holds: exactly the non-rating tags among the first
/// `k` that have a score no lower than their own category's threshold.
proof fn lemma_passing_tags_members(
    tags: Seq<(Seq<char>, Seq<char>)>,
    scores: Seq<u32>,
    spec: WdProfileSpec,
    k: nat,
)
    ensures
        forall|m: int|
            0 <= m < passing_tags(tags, scores, spec, k).len() ==> exists|i: int|
                0 <= i < k && i < tags.len() && i < scores.len() && tags[i].1 != "rating"@ && !f32_lt(
                    scores[i],
                    spec.spec_threshold_for(tags[i].1),
                ) && #[trigger] passing_tags(tags, scores, spec, k)[m] == (tags[i].0, scores[i], tags[i].1),
        forall|i: int|
            0 <= i < k && i < tags.len() && i < scores.len() && (#[trigger] tags[i]).1 != "rating"@ && !f32_lt(
                scores[i],
                spec.spec_threshold_for(tags[i].1),
            ) ==> exists|m: int|
                0 <= m < passing_tags(tags, scores, spec, k).len() && passing_tags(tags, scores, spec, k)[m] == (
                    tags[i].0,
                    scores[i],
                    tags[i].1,
                ),
    decreases k,
{
    if k > 0 {
        lemma_passing_tags_members(tags, scores, spec, (k - 1) as nat);
        let prev = passing_tags(tags, scores, spec, (k - 1) as nat);
        let cur = passing_tags(tags, scores, spec, k);
        let t = k - 1;
        assert forall|m: int| 0 <= m < cur.len() implies exists|i: int|
            0 <= i < k && i < tags.len() && i < scores.len() && tags[i].1 != "rating"@ && !f32_lt(
                scores[i],
                spec.spec_threshold_for(tags[i].1),
            ) && #[trigger] cur[m] == (tags[i].0, scores[i], tags[i].1) by {
            if m < prev.len() {
                assert(cur[m] == prev[m]);
                assert(prev[m] == passing_tags(tags, scores, spec, (k - 1) as nat)[m]);
            } else {
                assert(cur[m] == (tags[t].0, scores[t], tags[t].1));
            }
        }
        assert forall|i: int|
            0 <= i < k && i < tags.len() && i < scores.len() && (#[trigger] tags[i]).1 != "rating"@ && !f32_lt(
                scores[i],
                spec.spec_threshold_for(tags[i].1),
            ) implies exists|m: int| 0 <= m < cur.len() && cur[m] == (tags[i].0, scores[i], tags[i].1) by {
            if i < t {
                let m = choose|m: int| 0 <= m < prev.len() && prev[m] == (tags[i].0, scores[i], tags[i].1);
                assert(cur[m] == prev[m]);
            } else {
                assert(cur[prev.len() as int] == (tags[t].0, scores[t], tags[t].1));
            }
        }
    }
}

/// What `passing_two_thresholds` holds: exactly the non-rating tags among the
/// first `k` whose score is no lower than `character_bits` for a `character`
/// tag and `general_bits` for any other.
proof fn lemma_two_thresholds_members(
    tags: Seq<(Seq<char>, Seq<char>)>,
    scores: Seq<u32>,
    general_bits: u32,
    character_bits: u32,
    k: nat,
)
    ensures
        forall|m: int|
            0 <= m < passing_two_thresholds(tags, scores, general_bits, character_bits, k).len() ==> exists|i: int|
                0 <= i < k && i < tags.len() && i < scores.len() && tags[i].1 != "rating"@ && !f32_lt(
                    scores[i],
                    if tags[i].1 == "character"@ {
                        character_bits
                    } else {
                        general_bits
                    },
                ) && #[trigger] passing_two_thresholds(tags, scores, general_bits, character_bits, k)[m] == (
                    tags[i].0,
                    scores[i],
                    tags[i].1,
                ),
        forall|i: int|
            0 <= i < k && i < tags.len() && i < scores.len() && (#[trigger] tags[i]).1 != "rating"@ && !f32_lt(
                scores[i],
                if tags[i].1 == "character"@ {
                    character_bits
                } else {
                    general_bits
                },
            ) ==> exists|m: int|
                0 <= m < passing_two_thresholds(tags, scores, general_bits, character_bits, k).len()
                    && passing_two_thresholds(tags, scores, general_bits, character_bits, k)[m] == (
                    tags[i].0,
                    scores[i],
                    tags[i].1,
                ),
    decreases k,
{
    if k > 0 {
        lemma_two_thresholds_members(tags, scores, general_bits, character_bits, (k - 1) as nat);
        let prev = passing_two_thresholds(tags, scores, general_bits, character_bits, (k - 1) as nat);
        let cur = passing_two_thresholds(tags, scores, general_bits, character_bits, k);
        let t = k - 1;
        assert forall|m: int| 0 <= m < cur.len() implies exists|i: int|
            0 <= i < k && i < tags.len() && i < scores.len() && tags[i].1 != "rating"@ && !f32_lt(
                scores[i],
                if tags[i].1 == "character"@ {
                    character_bits
                } else {
                    general_bits
                },
            ) && #[trigger] cur[m] == (tags[i].0, scores[i], tags[i].1) by {
            if m < prev.len() {
                assert(cur[m] == prev[m]);
                assert(prev[m] == passing_two_thresholds(tags, scores, general_bits, character_bits, (k - 1) as nat)[m]);
            } else {
                assert(cur[m] == (tags[t].0, scores[t], tags[t].1));
            }
        }
        assert forall|i: int|
            0 <= i < k && i < tags.len() && i < scores.len() && (#[trigger] tags[i]).1 != "rating"@ && !f32_lt(
                scores[i],
                if tags[i].1 == "character"@ {
                    character_bits
                } else {
                    general_bits
                },
            ) implies exists|m: int| 0 <= m < cur.len() && cur[m] == (tags[i].0, scores[i], tags[i].1) by {
            if i < t {
                let m = choose|m: int| 0 <= m < prev.len() && prev[m] == (tags[i].0, scores[i], tags[i].1);
                assert(cur[m] == prev[m]);
            } else {
                assert(cur[prev.len() as int] == (tags[t].0, scores[t], tags[t].1));
            }
        }
    }
}

} // verus!
