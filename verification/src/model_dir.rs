//! Where a model's files live, and whether they are present.
use vstd::prelude::*;
use crate::text::{cat, chars_of, split_chars, split_on, string_of_chars};

verus! {

/// The path that `std::path::Path::join` produces on Unix from `base` and
/// `segment`: an absolute segment replaces the base; otherwise a `/` is put
/// between them unless the base is empty or already ends in `/`.
pub open spec fn joined_path(base: Seq<char>, segment: Seq<char>) -> Seq<char> {
    if segment.len() > 0 && segment[0] == '/' {
        segment
    } else if base.len() == 0 || base.last() == '/' {
        base + segment
    } else {
        base + seq!['/'] + segment
    }
}

/// `base` joined with `segment` as `std::path::Path::join` does on Unix (see
/// `joined_path`), as text.
pub(crate) fn path_join(base: &str, segment: &str) -> (r: String)
    ensures
        r@ == joined_path(base@, segment@),
{
    let seg = chars_of(segment);
    if seg.len() > 0 && seg[0] == '/' {
        return String::from_str(segment);
    }
    let b = chars_of(base);
    if b.len() == 0 || b[b.len() - 1] == '/' {
        return cat(base, segment);
    }
    let with_sep = cat(base, "/");
    proof {
        reveal_strlit("/");
    }
    cat(with_sep.as_str(), segment)
}

/// `std::path::Path::new(path).exists()`.
/// Trusted, with nothing promised: the answer depends on the filesystem.
#[verifier::external_body]
fn path_exists(path: &str) -> bool {
    std::path::Path::new(path).exists()
}

/// `std::path::Path::new(path).is_file()`.
/// Trusted, with nothing promised: the answer depends on the filesystem.
#[verifier::external_body]
fn path_is_file(path: &str) -> bool {
    std::path::Path::new(path).is_file()
}

/// `base` joined with each of `segments` in turn.
pub open spec fn join_all(base: Seq<char>, segments: Seq<Seq<char>>) -> Seq<char>
    decreases segments.len(),
{
    if segments.len() == 0 {
        base
    } else {
        joined_path(join_all(base, segments.drop_last()), segments.last())
    }
}

/// A character allowed in a variant subdirectory segment: ASCII letters and
/// digits, `.`, `_` and `-`.
pub open spec fn segment_char_ok(c: char) -> bool {
    ('a' <= c && c <= 'z') || ('A' <= c && c <= 'Z') || ('0' <= c && c <= '9') || c == '.'
        || c == '_' || c == '-'
}

/// A segment that is safe to join: non-empty, not `.` or `..`, and made only
/// of allowed characters.
pub open spec fn segment_ok(seg: Seq<char>) -> bool {
    &&& seg.len() > 0
    &&& seg != seq!['.']
    &&& seg != seq!['.', '.']
    &&& forall|i: int| 0 <= i < seg.len() ==> segment_char_ok(#[trigger] seg[i])
}

/// A variant subdirectory that may be joined: at most four `/`-separated
/// segments, each of them safe.
pub open spec fn subdir_ok(s: Seq<char>) -> bool {
    &&& split_on(s, '/').len() <= 4
    &&& forall|i: int| 0 <= i < split_on(s, '/').len() ==> segment_ok(#[trigger] split_on(s, '/')[i])
}

/// The text of an optional string slice.
pub open spec fn opt_text(s: Option<&str>) -> Option<Seq<char>> {
    match s {
        Some(t) => Some(t@),
        None => None,
    }
}

/// What `resolve_model_dir` returns.
pub open spec fn resolved_dir(cache_dir: Seq<char>, model_id: Seq<char>, subdir: Option<Seq<char>>) -> Option<Seq<char>> {
    let dir = joined_path(cache_dir, model_id);
    match subdir {
        None => Some(dir),
        Some(s) => if s.len() == 0 {
            Some(dir)
        } else if subdir_ok(s) {
            Some(join_all(dir, split_on(s, '/')))
        } else {
            None
        },
    }
}

fn is_segment_char(c: char) -> (r: bool)
    ensures
        r == segment_char_ok(c),
{
    ('a' <= c && c <= 'z') || ('A' <= c && c <= 'Z') || ('0' <= c && c <= '9') || c == '.'
        || c == '_' || c == '-'
}

fn segment_is_ok(seg: &Vec<char>) -> (r: bool)
    ensures
        r == segment_ok(seg@),
{
    if seg.len() == 0 {
        return false;
    }
    if seg.len() == 1 && seg[0] == '.' {
        proof {
            assert(seg@ =~= seq!['.']);
        }
        return false;
    }
    if seg.len() == 2 && seg[0] == '.' && seg[1] == '.' {
        proof {
            assert(seg@ =~= seq!['.', '.']);
        }
        return false;
    }
    let mut i: usize = 0;
    while i < seg.len()
        invariant
            i <= seg.len(),
            forall|j: int| 0 <= j < i ==> segment_char_ok(#[trigger] seg@[j]),
        decreases seg.len() - i,
    {
        if !is_segment_char(seg[i]) {
            return false;
        }
        i = i + 1;
    }
    proof {
        assert(seg@ != seq!['.']) by {
            if seg@ == seq!['.'] {
                assert(seg@.len() == 1 && seg@[0] == '.');
            }
        }
        assert(seg@ != seq!['.', '.']) by {
            if seg@ == seq!['.', '.'] {
                assert(seg@.len() == 2 && seg@[0] == '.' && seg@[1] == '.');
            }
        }
    }
    true
}

/// Resolve a model directory, honouring an optional variant subdirectory.
///
/// `None` or an empty subdirectory yields `cache_dir/model_id`. Otherwise the
/// subdirectory must be at most four `/`-separated segments of
/// `[A-Za-z0-9._-]`, none of them `.` or `..`, or the answer is `None`: the
/// value arrives over the wire and is never joined unchecked.
pub fn resolve_model_dir(cache_dir: &str, model_id: &str, subdir: Option<&str>) -> (r: Option<String>)
    ensures
        r matches Some(p) ==> resolved_dir(cache_dir@, model_id@, opt_text(subdir)) == Some(p@),
        r is None ==> resolved_dir(cache_dir@, model_id@, opt_text(subdir)) is None,
{
    let dir = path_join(cache_dir, model_id);
    let s = match subdir {
        None => {
            return Some(dir);
        },
        Some(s) => s,
    };
    if s.is_empty() {
        return Some(dir);
    }
    proof {
        assert(opt_text(subdir) == Some(s@));
    }
    let segments = split_chars(s, '/');
    if segments.len() > 4 {
        return None;
    }
    let mut i: usize = 0;
    while i < segments.len()
        invariant
            opt_text(subdir) == Some(s@),
            s@.len() != 0,
            i <= segments@.len(),
            segments@.len() == split_on(s@, '/').len(),
            forall|k: int| 0 <= k < segments@.len() ==> (#[trigger] segments@[k])@ == split_on(s@, '/')[k],
            forall|k: int| 0 <= k < i ==> segment_ok(#[trigger] split_on(s@, '/')[k]),
        decreases segments.len() - i,
    {
        if !segment_is_ok(&segments[i]) {
            proof {
                assert(opt_text(subdir) == Some(s@));
                assert(!segment_ok(split_on(s@, '/')[i as int]));
                assert(!subdir_ok(s@));
            }
            return None;
        }
        i = i + 1;
    }
    let mut out = dir;
    let mut k: usize = 0;
    while k < segments.len()
        invariant
            opt_text(subdir) == Some(s@),
            s@.len() != 0,
            subdir_ok(s@),
            k <= segments@.len(),
            segments@.len() == split_on(s@, '/').len(),
            forall|m: int| 0 <= m < segments@.len() ==> (#[trigger] segments@[m])@ == split_on(s@, '/')[m],
            out@ == join_all(joined_path(cache_dir@, model_id@), split_on(s@, '/').take(k as int)),
        decreases segments.len() - k,
    {
        let seg = string_of_chars(&segments[k]);
        proof {
            let t = split_on(s@, '/').take(k + 1);
            assert(t.drop_last() =~= split_on(s@, '/').take(k as int));
        }
        out = path_join(out.as_str(), seg.as_str());
        k = k + 1;
    }
    proof {
        assert(split_on(s@, '/').take(segments@.len() as int) =~= split_on(s@, '/'));
    }
    Some(out)
}

/// The two files of the default WD layout under `cache_dir/model_id`:
/// `model.onnx`, then `selected_tags.csv`.
pub fn wd_model_files(cache_dir: &str, model_id: &str) -> (r: (String, String))
    ensures
        r.0@ == joined_path(joined_path(cache_dir@, model_id@), "model.onnx"@),
        r.1@ == joined_path(joined_path(cache_dir@, model_id@), "selected_tags.csv"@),
{
    let base = path_join(cache_dir, model_id);
    (path_join(base.as_str(), "model.onnx"), path_join(base.as_str(), "selected_tags.csv"))
}

/// The two files the CLIP text encoder needs in `model_dir`:
/// `text_model.onnx`, then `tokenizer.json`.
pub fn clip_text_model_files(model_dir: &str) -> (r: (String, String))
    ensures
        r.0@ == joined_path(model_dir@, "text_model.onnx"@),
        r.1@ == joined_path(model_dir@, "tokenizer.json"@),
{
    (path_join(model_dir, "text_model.onnx"), path_join(model_dir, "tokenizer.json"))
}

/// The file the CLIP image encoder needs in `model_dir`: `vision_model.onnx`.
pub fn clip_image_model_file(model_dir: &str) -> (r: String)
    ensures
        r@ == joined_path(model_dir@, "vision_model.onnx"@),
{
    path_join(model_dir, "vision_model.onnx")
}

/// The two files `spec` names in `model_dir`: its model file, then its tag
/// source file.
pub fn profile_model_files(model_dir: &str, spec: &crate::profile::WdProfileSpec) -> (r: (String, String))
    ensures
        r.0@ == joined_path(model_dir@, spec.model_file@),
        r.1@ == joined_path(model_dir@, spec.tag_source.spec_file()),
{
    let tag_file = spec.tag_source.file();
    (path_join(model_dir, spec.model_file.as_str()), path_join(model_dir, tag_file.as_str()))
}

/// A model is ready when both of its probed files are present.
pub fn both_present(first: bool, second: bool) -> (r: bool)
    ensures
        r == (first && second),
{
    first && second
}

/// Whether the default WD layout is present under `cache_dir/model_id`: the
/// two files of `wd_model_files` are probed with `Path::exists`, and the
/// answer is `both_present` of the two probes. What the filesystem answers is
/// not stated.
pub fn is_model_downloaded(cache_dir: &str, model_id: &str) -> bool {
    let (model, tags) = wd_model_files(cache_dir, model_id);
    both_present(path_exists(model.as_str()), path_exists(tags.as_str()))
}

/// Whether `model_dir` holds the two regular files of
/// `clip_text_model_files` (probed with `Path::is_file`); the answer is
/// `both_present` of the two probes. What the filesystem answers is not
/// stated.
pub fn is_clip_text_model_downloaded(model_dir: &str) -> bool {
    let (model, tokenizer) = clip_text_model_files(model_dir);
    both_present(path_is_file(model.as_str()), path_is_file(tokenizer.as_str()))
}

/// Whether `model_dir` holds the regular file of `clip_image_model_file`
/// (probed with `Path::is_file`). What the filesystem answers is not stated.
pub fn is_clip_image_model_downloaded(model_dir: &str) -> bool {
    let model = clip_image_model_file(model_dir);
    path_is_file(model.as_str())
}

/// Whether `model_dir` holds the two files of `profile_model_files` (probed
/// with `Path::exists`); the answer is `both_present` of the two probes. What
/// the filesystem answers is not stated.
pub fn is_profile_model_ready(model_dir: &str, spec: &crate::profile::WdProfileSpec) -> bool {
    let (model, tags) = profile_model_files(model_dir, spec);
    both_present(path_exists(model.as_str()), path_exists(tags.as_str()))
}

} // verus!
