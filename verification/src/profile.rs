//! Profile-driven inference specification for the WD-family taggers.
//!
//! Field names and defaults mirror the server's tagger profiles, so a request
//! that omits a field behaves as if the server's default were sent. Floating
//! point settings are carried by their IEEE-754 `f32` bit patterns.
use vstd::prelude::*;
use crate::error::InferError;
use crate::text::{decimal, debug_rendering, concat, debug_text, dots_at, has_char, has_double_dot, str_has_char, str_has_double_dot, text_is, u64_text};

verus! {

/// The bit pattern of `0.35_f32`, the threshold used when a profile names
/// neither the category nor `general`.
pub const FALLBACK_THRESHOLD_BITS: u32 = 0x3EB3_3333;

/// The bit pattern of `1.0_f32`.
pub const ONE_BITS: u32 = 0x3F80_0000;

/// Upper bound on a single metadata file.
pub const METADATA_MAX_BYTES: u64 = 33554432;

/// Upper bound on the tag vocabulary.
pub const MAX_TAGS: usize = 100000;

/// Upper bound on one tag string, in UTF-8 bytes.
pub const MAX_TAG_LEN: usize = 256;

/// How to turn an image file into the model's input tensor.
#[derive(Debug, Clone, PartialEq, Eq)]
pub struct PreprocessSpec {
    pub input_size: u32,
    pub resize_strategy: String,
    pub pad_color: [u8; 3],
    pub channel_order: String,
    /// `f32` bits of the multiplier applied to each byte.
    pub scale_bits: u32,
    /// `f32` bits of the per-channel mean, if any.
    pub mean_bits: Option<[u32; 3]>,
    /// `f32` bits of the per-channel standard deviation, if any.
    pub std_bits: Option<[u32; 3]>,
    pub layout: String,
}

/// Where the ordered `(tag, category)` list comes from.
#[derive(Debug, Clone, PartialEq, Eq)]
pub enum TagSourceSpec {
    Csv {
        file: String,
        delimiter: String,
        name_col: String,
        category_col: String,
        /// Raw category value to category name; keys are unique.
        category_map: Vec<(String, String)>,
    },
    JsonDict {
        file: String,
        container_key: Option<String>,
        idx_to_tag_key: String,
        tag_to_category_key: String,
    },
}

/// Which output head to read, and whether it still needs an activation.
#[derive(Debug, Clone, PartialEq, Eq)]
pub struct OutputSpec {
    pub output_key: Option<String>,
    pub activation: Option<String>,
}

/// The full inference contract for one model.
#[derive(Debug, Clone, PartialEq, Eq)]
pub struct WdProfileSpec {
    /// Basename of the ONNX file inside the model directory.
    pub model_file: String,
    pub preprocess_spec: PreprocessSpec,
    pub tag_source: TagSourceSpec,
    pub output_spec: OutputSpec,
    /// Category to `f32` bits of its threshold; keys are unique.
    pub default_thresholds: Vec<(String, u32)>,
    pub categories_mode: String,
    pub supports_categories: Vec<String>,
}

/// Default `resize_strategy`.
pub fn default_resize_strategy() -> (r: String)
    ensures
        r@ == "longest_side_pad"@,
{
    String::from_str("longest_side_pad")
}

/// Default `pad_color`: white.
pub fn default_pad_color() -> (r: [u8; 3])
    ensures
        r@ == seq![255u8, 255u8, 255u8],
{
    let r: [u8; 3] = [255, 255, 255];
    proof {
        assert(r@ =~= seq![255u8, 255u8, 255u8]);
    }
    r
}

/// Default `channel_order`.
pub fn default_channel_order() -> (r: String)
    ensures
        r@ == "RGB"@,
{
    String::from_str("RGB")
}

/// Default `scale`: `1.0`, as `f32` bits.
pub fn default_scale() -> (r: u32)
    ensures
        r == ONE_BITS,
{
    ONE_BITS
}

/// Default `layout`.
pub fn default_layout() -> (r: String)
    ensures
        r@ == "NHWC"@,
{
    String::from_str("NHWC")
}

/// Default CSV `delimiter`.
pub fn default_delimiter() -> (r: String)
    ensures
        r@ == ","@,
{
    String::from_str(",")
}

/// Default CSV `name_col`.
pub fn default_name_col() -> (r: String)
    ensures
        r@ == "name"@,
{
    String::from_str("name")
}

/// Default CSV `category_col`.
pub fn default_category_col() -> (r: String)
    ensures
        r@ == "category"@,
{
    String::from_str("category")
}

/// Default `categories_mode`.
pub fn default_categories_mode() -> (r: String)
    ensures
        r@ == "from_tag_source"@,
{
    String::from_str("from_tag_source")
}

impl PreprocessSpec {
    /// A preprocessing spec of the given size with every other field at its
    /// default.
    pub fn with_input_size(input_size: u32) -> (r: PreprocessSpec)
        ensures
            r.input_size == input_size,
            r.resize_strategy@ == "longest_side_pad"@,
            r.pad_color@ == seq![255u8, 255u8, 255u8],
            r.channel_order@ == "RGB"@,
            r.scale_bits == ONE_BITS,
            r.mean_bits is None,
            r.std_bits is None,
            r.layout@ == "NHWC"@,
    {
        PreprocessSpec {
            input_size,
            resize_strategy: default_resize_strategy(),
            pad_color: default_pad_color(),
            channel_order: default_channel_order(),
            scale_bits: default_scale(),
            mean_bits: None,
            std_bits: None,
            layout: default_layout(),
        }
    }
}

impl TagSourceSpec {
    /// The file this source reads, relative to the model directory.
    pub open spec fn spec_file(&self) -> Seq<char> {
        match self {
            TagSourceSpec::Csv { file, .. } => file@,
            TagSourceSpec::JsonDict { file, .. } => file@,
        }
    }

    /// The file this source reads, relative to the model directory.
    pub fn file(&self) -> (r: &String)
        ensures
            r@ == self.spec_file(),
    {
        match self {
            TagSourceSpec::Csv { file, .. } => file,
            TagSourceSpec::JsonDict { file, .. } => file,
        }
    }

    /// A CSV source reading `file` with the default delimiter and columns.
    pub fn csv_with_defaults(file: &str, category_map: Vec<(String, String)>) -> (r: TagSourceSpec)
        ensures
            r matches TagSourceSpec::Csv { file: f, delimiter, name_col, category_col, category_map: m }
                && f@ == file@ && delimiter@ == ","@ && name_col@ == "name"@
                && category_col@ == "category"@ && m@ == category_map@,
    {
        TagSourceSpec::Csv {
            file: String::from_str(file),
            delimiter: default_delimiter(),
            name_col: default_name_col(),
            category_col: default_category_col(),
            category_map,
        }
    }
}

impl OutputSpec {
    /// The default output spec: first output, no activation.
    pub fn none() -> (r: OutputSpec)
        ensures
            r.output_key is None,
            r.activation is None,
    {
        OutputSpec { output_key: None, activation: None }
    }

    /// The activation names `sigmoid`.
    pub open spec fn spec_wants_sigmoid(&self) -> bool {
        self.activation matches Some(a) && a@ == "sigmoid"@
    }

    /// Whether the raw scores still need a sigmoid.
    pub fn wants_sigmoid(&self) -> (r: bool)
        ensures
            r == self.spec_wants_sigmoid(),
    {
        match &self.activation {
            Some(a) => text_is(a.as_str(), "sigmoid"),
            None => false,
        }
    }
}

/// `c` is a Unicode control character (general category Cc).
pub open spec fn is_control(c: char) -> bool {
    (c as u32) <= 0x1F || (0x7F <= (c as u32) && (c as u32) <= 0x9F)
}

/// A plain file name: non-empty, with no separator, no `..`, no leading dot,
/// no control character and no colon.
pub open spec fn plain_file_name(name: Seq<char>) -> bool {
    &&& name.len() > 0
    &&& !has_char(name, '/')
    &&& !has_char(name, '\\')
    &&& !has_double_dot(name)
    &&& name[0] != '.'
    &&& forall|i: int| 0 <= i < name.len() ==> !is_control(#[trigger] name[i]) && name[i] != ':'
}

/// A name made only of ASCII letters, digits, `-` and single dots between
/// other characters, not starting with a dot, is a plain file name.
proof fn lemma_plain_name_chars(name: Seq<char>)
    requires
        name.len() > 0,
        name[0] != '.',
        forall|i: int| 0 <= i < name.len() ==> ('a' <= #[trigger] name[i] <= 'z') || ('0' <= name[i] <= '9') || name[i] == '-' || name[i] == '.',
        forall|i: int| 0 <= i < name.len() - 1 && #[trigger] name[i] == '.' ==> name[i + 1] != '.',
    ensures
        plain_file_name(name),
{
    assert forall|i: int| 0 <= i < name.len() implies !is_control(#[trigger] name[i]) && name[i] != ':' by {
        let c = name[i];
        assert(('a' <= c <= 'z') || ('0' <= c <= '9') || c == '-' || c == '.');
    }
    if has_double_dot(name) {
        let i = choose|i: int| #[trigger] dots_at(name, i);
        assert(name[i] == '.');
    }
}

fn char_is_control(c: char) -> (r: bool)
    ensures
        r == is_control(c),
{
    let v = c as u32;
    v <= 0x1F || (0x7F <= v && v <= 0x9F)
}

fn no_control_or_colon(cs: &Vec<char>) -> (r: bool)
    ensures
        r == forall|i: int| 0 <= i < cs@.len() ==> !is_control(#[trigger] cs@[i]) && cs@[i] != ':',
{
    let mut i: usize = 0;
    while i < cs.len()
        invariant
            i <= cs.len(),
            forall|j: int| 0 <= j < i ==> !is_control(#[trigger] cs@[j]) && cs@[j] != ':',
        decreases cs.len() - i,
    {
        if char_is_control(cs[i]) || cs[i] == ':' {
            return false;
        }
        i = i + 1;
    }
    true
}

/// The refusal of `name` given as the file name `field`.
pub open spec fn basename_refusal(name: Seq<char>, field: Seq<char>) -> Seq<char> {
    field + "="@ + debug_rendering(name) + " is not a plain file name"@
}

/// Reject anything that is not a plain file name: these names arrive over the
/// wire and are joined onto the model directory.
pub fn validate_basename(name: &str, field: &str) -> (r: Result<(), InferError>)
    ensures
        r is Ok <==> plain_file_name(name@),
        r matches Err(e) ==> (e matches InferError::UnsupportedProfile(m) && m@ == basename_refusal(name@, field@)),
{
    let cs = crate::text::chars_of(name);
    let bad = cs.len() == 0 || str_has_char(name, '/') || str_has_char(name, '\\')
        || str_has_double_dot(name) || cs[0] == '.' || !no_control_or_colon(&cs);
    if bad {
        let quoted = debug_text(name);
        return Err(InferError::UnsupportedProfile(concat(&[field, "=", quoted.as_str(), " is not a plain file name"])));
    }
    Ok(())
}

/// `bits` is the pattern of `+0.0` or `-0.0`.
pub open spec fn is_zero_bits(bits: u32) -> bool {
    bits == 0 || bits == 0x8000_0000
}

/// The optional per-channel standard deviation holds a zero.
pub open spec fn std_has_zero(std_bits: Option<[u32; 3]>) -> bool {
    std_bits matches Some(s) && (is_zero_bits(s@[0]) || is_zero_bits(s@[1]) || is_zero_bits(s@[2]))
}

fn zero_bits(bits: u32) -> (r: bool)
    ensures
        r == is_zero_bits(bits),
{
    bits == 0 || bits == 0x8000_0000
}

impl WdProfileSpec {
    /// Every setting of this profile is one this build reproduces exactly.
    pub open spec fn supported(&self) -> bool {
        let p = self.preprocess_spec;
        &&& p.resize_strategy@ == "longest_side_pad"@
        &&& (p.channel_order@ == "RGB"@ || p.channel_order@ == "BGR"@)
        &&& (p.layout@ == "NHWC"@ || p.layout@ == "NCHW"@)
        &&& (self.output_spec.activation matches Some(a) ==> (a@ == "none"@ || a@ == "sigmoid"@))
        &&& !std_has_zero(p.std_bits)
        &&& 32 <= p.input_size <= 2048
        &&& (self.categories_mode@ == "from_tag_source"@ || self.categories_mode@ == "all_general"@)
        &&& plain_file_name(self.model_file@)
        &&& plain_file_name(self.tag_source.spec_file())
    }

    /// The tensor layout does not decide support between its two accepted
    /// values: a profile laid out `NCHW` is supported exactly when the same
    /// profile laid out `NHWC` is.
    pub proof fn law_either_layout_supported(a: WdProfileSpec, b: WdProfileSpec)
        requires
            a.model_file == b.model_file,
            a.tag_source == b.tag_source,
            a.output_spec == b.output_spec,
            a.categories_mode == b.categories_mode,
            a.preprocess_spec.input_size == b.preprocess_spec.input_size,
            a.preprocess_spec.resize_strategy == b.preprocess_spec.resize_strategy,
            a.preprocess_spec.channel_order == b.preprocess_spec.channel_order,
            a.preprocess_spec.std_bits == b.preprocess_spec.std_bits,
            a.preprocess_spec.layout@ == "NCHW"@,
            b.preprocess_spec.layout@ == "NHWC"@,
        ensures
            a.supported() == b.supported(),
    {
    }

    /// The shipped camie recipe is supported: a 512-pixel `NCHW` input with
    /// ImageNet normalisation, read from `camie-tagger-v2.onnx`, with a
    /// sigmoid head and its tags in `camie-tagger-v2-metadata.json`.
    pub proof fn law_camie_recipe_supported(s: WdProfileSpec)
        requires
            s.model_file@ == "camie-tagger-v2.onnx"@,
            s.preprocess_spec.input_size == 512,
            s.preprocess_spec.resize_strategy@ == "longest_side_pad"@,
            s.preprocess_spec.channel_order@ == "RGB"@,
            s.preprocess_spec.std_bits matches Some(d) && d@ == seq![0x3e6a7efau32, 0x3e656042u32, 0x3e666666u32],
            s.preprocess_spec.layout@ == "NCHW"@,
            s.tag_source.spec_file() == "camie-tagger-v2-metadata.json"@,
            s.output_spec.activation matches Some(a) && a@ == "sigmoid"@,
            s.categories_mode@ == "from_tag_source"@,
        ensures
            s.supported(),
    {
        reveal_strlit("camie-tagger-v2.onnx");
        reveal_strlit("camie-tagger-v2-metadata.json");
        lemma_plain_name_chars(s.model_file@);
        lemma_plain_name_chars(s.tag_source.spec_file());
    }

    /// The refusal of an unsupported profile: the first setting, in the order
    /// `supported` lists them, that is not supported.
    pub open spec fn refusal_text(&self) -> Seq<char> {
        let p = self.preprocess_spec;
        if p.resize_strategy@ != "longest_side_pad"@ {
            "resize_strategy="@ + p.resize_strategy@ + " not supported"@
        } else if !(p.channel_order@ == "RGB"@ || p.channel_order@ == "BGR"@) {
            "channel_order="@ + p.channel_order@ + " not supported"@
        } else if !(p.layout@ == "NHWC"@ || p.layout@ == "NCHW"@) {
            "layout="@ + p.layout@ + " not supported"@
        } else if self.output_spec.activation matches Some(a) && !(a@ == "none"@ || a@ == "sigmoid"@) {
            "activation="@ + self.output_spec.activation.unwrap()@ + " not supported"@
        } else if std_has_zero(p.std_bits) {
            "preprocess_spec.std contains zero"@
        } else if !(32 <= p.input_size <= 2048) {
            "input_size="@ + decimal(p.input_size as nat) + " out of range [32,2048]"@
        } else if !(self.categories_mode@ == "from_tag_source"@ || self.categories_mode@ == "all_general"@) {
            "categories_mode="@ + self.categories_mode@ + " not supported"@
        } else if !plain_file_name(self.model_file@) {
            basename_refusal(self.model_file@, "model_file"@)
        } else {
            basename_refusal(self.tag_source.spec_file(), "tag_source.file"@)
        }
    }

    /// Reject anything this implementation cannot reproduce exactly, rather
    /// than approximate it.
    pub fn validate(&self) -> (r: Result<(), InferError>)
        ensures
            r is Ok <==> self.supported(),
            r matches Err(e) ==> (e matches InferError::UnsupportedProfile(m) && m@ == self.refusal_text()),
    {
        let p = &self.preprocess_spec;
        if !text_is(p.resize_strategy.as_str(), "longest_side_pad") {
            return Err(InferError::UnsupportedProfile(concat(&["resize_strategy=", p.resize_strategy.as_str(), " not supported"])));
        }
        if !(text_is(p.channel_order.as_str(), "RGB") || text_is(p.channel_order.as_str(), "BGR")) {
            return Err(InferError::UnsupportedProfile(concat(&["channel_order=", p.channel_order.as_str(), " not supported"])));
        }
        if !(text_is(p.layout.as_str(), "NHWC") || text_is(p.layout.as_str(), "NCHW")) {
            return Err(InferError::UnsupportedProfile(concat(&["layout=", p.layout.as_str(), " not supported"])));
        }
        if let Some(activation) = &self.output_spec.activation {
            if !(text_is(activation.as_str(), "none") || text_is(activation.as_str(), "sigmoid")) {
                return Err(InferError::UnsupportedProfile(concat(&["activation=", activation.as_str(), " not supported"])));
            }
        }
        if let Some(std) = &p.std_bits {
            if zero_bits(std[0]) || zero_bits(std[1]) || zero_bits(std[2]) {
                return Err(InferError::UnsupportedProfile(String::from_str("preprocess_spec.std contains zero")));
            }
        }
        if p.input_size < 32 || p.input_size > 2048 {
            let n = u64_text(p.input_size as u64);
            return Err(InferError::UnsupportedProfile(concat(&["input_size=", n.as_str(), " out of range [32,2048]"])));
        }
        if !(text_is(self.categories_mode.as_str(), "from_tag_source") || text_is(self.categories_mode.as_str(), "all_general")) {
            return Err(InferError::UnsupportedProfile(concat(&["categories_mode=", self.categories_mode.as_str(), " not supported"])));
        }
        validate_basename(self.model_file.as_str(), "model_file")?;
        validate_basename(self.tag_source.file().as_str(), "tag_source.file")?;
        Ok(())
    }

    /// The `f32` bits of the threshold for `category`: the category's own
    /// value, else `general`'s, else `0.35`.
    pub open spec fn spec_threshold_for(&self, category: Seq<char>) -> u32 {
        match assoc_find(self.default_thresholds@, category) {
            Some(v) => v,
            None => match assoc_find(self.default_thresholds@, "general"@) {
                Some(v) => v,
                None => FALLBACK_THRESHOLD_BITS,
            },
        }
    }

    /// No two threshold entries name the same category, as in the profile's
    /// category-to-threshold map.
    pub open spec fn thresholds_unique(&self) -> bool {
        keys_distinct(self.default_thresholds@)
    }

    /// Both of the profile's lookup lists are maps: no key occurs twice in
    /// `default_thresholds`, nor in a CSV source's `category_map`.
    pub open spec fn keys_unique(&self) -> bool {
        self.thresholds_unique() && self.tag_source.map_keys_distinct()
    }

    /// Whether `keys_unique` holds.
    pub fn has_unique_keys(&self) -> (r: bool)
        ensures
            r == self.keys_unique(),
    {
        if !distinct_keys(&self.default_thresholds) {
            return false;
        }
        match &self.tag_source {
            TagSourceSpec::Csv { category_map, .. } => distinct_keys(category_map),
            TagSourceSpec::JsonDict { .. } => true,
        }
    }

    /// Per-category threshold (as `f32` bits): the category's own value, else
    /// `general`'s, else `0.35`.
    pub fn threshold_for(&self, category: &str) -> (r: u32)
        requires
            self.thresholds_unique(),
        ensures
            r == self.spec_threshold_for(category@),
            forall|i: int|
                0 <= i < self.default_thresholds@.len() && (#[trigger] self.default_thresholds@[i]).0@ == category@
                    ==> r == self.default_thresholds@[i].1,
            (forall|i: int| 0 <= i < self.default_thresholds@.len() ==> (#[trigger] self.default_thresholds@[i]).0@ != category@)
                ==> forall|g: int|
                0 <= g < self.default_thresholds@.len() && (#[trigger] self.default_thresholds@[g]).0@ == "general"@
                    ==> r == self.default_thresholds@[g].1,
            (forall|i: int|
                0 <= i < self.default_thresholds@.len() ==> (#[trigger] self.default_thresholds@[i]).0@ != category@
                    && self.default_thresholds@[i].0@ != "general"@) ==> r == FALLBACK_THRESHOLD_BITS,
    {
        let ghost list = self.default_thresholds@;
        proof {
            assert forall|i: int| 0 <= i < list.len() && (#[trigger] list[i]).0@ == category@ implies assoc_find(
                list,
                category@,
            ) == Some(list[i].1) by {
                lemma_assoc_find_unique(list, category@, i);
            }
            assert forall|g: int| 0 <= g < list.len() && (#[trigger] list[g]).0@ == "general"@ implies assoc_find(
                list,
                "general"@,
            ) == Some(list[g].1) by {
                lemma_assoc_find_unique(list, "general"@, g);
            }
            if forall|i: int| 0 <= i < list.len() ==> (#[trigger] list[i]).0@ != category@ {
                lemma_assoc_find_absent(list, category@);
            }
            if forall|i: int| 0 <= i < list.len() ==> (#[trigger] list[i]).0@ != "general"@ {
                lemma_assoc_find_absent(list, "general"@);
            }
        }
        match assoc_get(&self.default_thresholds, category) {
            Some(v) => v,
            None => match assoc_get(&self.default_thresholds, "general") {
                Some(v) => v,
                None => FALLBACK_THRESHOLD_BITS,
            },
        }
    }
}

impl TagSourceSpec {
    /// A CSV source's `category_map` names each raw value once.
    pub open spec fn map_keys_distinct(&self) -> bool {
        match self {
            TagSourceSpec::Csv { category_map, .. } => keys_distinct(category_map@),
            TagSourceSpec::JsonDict { .. } => true,
        }
    }
}

/// No key occurs twice in `list`.
pub open spec fn keys_distinct<V>(list: Seq<(String, V)>) -> bool {
    forall|i: int, j: int| 0 <= i < j < list.len() ==> (#[trigger] list[i]).0@ != (#[trigger] list[j]).0@
}

/// Whether no key occurs twice in `list`.
pub fn distinct_keys<V>(list: &Vec<(String, V)>) -> (r: bool)
    ensures
        r == keys_distinct(list@),
{
    let n = list.len();
    let mut j: usize = 0;
    while j < n
        invariant
            n == list@.len(),
            j <= n,
            forall|a: int, b: int| 0 <= a < b < j ==> (#[trigger] list@[a]).0@ != (#[trigger] list@[b]).0@,
        decreases n - j,
    {
        let mut i: usize = 0;
        while i < j
            invariant
                n == list@.len(),
                i <= j < n,
                forall|a: int, b: int| 0 <= a < b < j ==> (#[trigger] list@[a]).0@ != (#[trigger] list@[b]).0@,
                forall|a: int| 0 <= a < i ==> (#[trigger] list@[a]).0@ != list@[j as int].0@,
            decreases j - i,
        {
            if text_is(list[i].0.as_str(), list[j].0.as_str()) {
                return false;
            }
            i = i + 1;
        }
        j = j + 1;
    }
    true
}

/// The value paired with the first key equal to `key`, if any.
pub open spec fn assoc_find<V>(list: Seq<(String, V)>, key: Seq<char>) -> Option<V>
    decreases list.len(),
{
    if list.len() == 0 {
        None
    } else if list[0].0@ == key {
        Some(list[0].1)
    } else {
        assoc_find(list.drop_first(), key)
    }
}

/// With distinct keys, the entry at `i` is the one found for its key.
pub proof fn lemma_assoc_find_unique<V>(list: Seq<(String, V)>, key: Seq<char>, i: int)
    requires
        0 <= i < list.len(),
        list[i].0@ == key,
        forall|a: int, b: int| 0 <= a < b < list.len() ==> (#[trigger] list[a]).0@ != (#[trigger] list[b]).0@,
    ensures
        assoc_find(list, key) == Some(list[i].1),
{
    assert forall|j: int| 0 <= j < i implies (#[trigger] list[j]).0@ != key by {
        assert(list[j].0@ != list[i].0@);
    }
    lemma_assoc_find_skip(list, key, i);
    assert(list.skip(i)[0] == list[i]);
}

/// Skipping entries whose keys differ from `key` finds the same value.
pub proof fn lemma_assoc_find_skip<V>(list: Seq<(String, V)>, key: Seq<char>, i: int)
    requires
        0 <= i <= list.len(),
        forall|j: int| 0 <= j < i ==> (#[trigger] list[j]).0@ != key,
    ensures
        assoc_find(list, key) == assoc_find(list.skip(i), key),
    decreases i,
{
    if i > 0 {
        assert(list[0].0@ != key);
        lemma_assoc_find_skip(list.drop_first(), key, i - 1);
        assert(list.drop_first().skip(i - 1) =~= list.skip(i));
    } else {
        assert(list.skip(0) =~= list);
    }
}

/// With no entry for `key`, nothing is found.
pub proof fn lemma_assoc_find_absent<V>(list: Seq<(String, V)>, key: Seq<char>)
    requires
        forall|j: int| 0 <= j < list.len() ==> (#[trigger] list[j]).0@ != key,
    ensures
        assoc_find(list, key) is None,
{
    lemma_assoc_find_skip(list, key, list.len() as int);
    assert(list.skip(list.len() as int).len() == 0);
}

/// The `f32` bits paired with `key`, if any.
pub fn assoc_get(list: &Vec<(String, u32)>, key: &str) -> (r: Option<u32>)
    ensures
        r == assoc_find(list@, key@),
{
    let mut i: usize = 0;
    while i < list.len()
        invariant
            i <= list@.len(),
            forall|j: int| 0 <= j < i ==> (#[trigger] list@[j]).0@ != key@,
        decreases list@.len() - i,
    {
        if text_is(list[i].0.as_str(), key) {
            proof {
                lemma_assoc_find_skip(list@, key@, i as int);
            }
            return Some(list[i].1);
        }
        i = i + 1;
    }
    proof {
        lemma_assoc_find_skip(list@, key@, i as int);
    }
    None
}

} // verus!
