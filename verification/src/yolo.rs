//! YOLO output checks and detection selection: which output tensors are
//! decodable, the score order, greedy non-maximum suppression, and the
//! per-class grouping around it. The box geometry and the scores themselves
//! are floating point and are computed by the caller; here a score is an
//! integer key in the order of `f64::total_cmp`, and an overlap is a yes/no
//! answer to "is the IoU above the threshold".
use vstd::prelude::*;
use crate::order::{is_permutation, lemma_permutation_onto, order_by_key_desc, ranked_desc, ranks_before, reaches};
use crate::text::{cat, contains_ascii_case_insensitive, contains_ascii_ci, decimal, u64_text};

verus! {

/// What the checks read of one output tensor.
#[derive(Debug, Clone, PartialEq, Eq)]
pub struct OutputInfo {
    pub name: String,
    pub is_float32: bool,
    /// `[height, width, channels]`.
    pub shape: [usize; 3],
    /// HailoRT format type: UINT8 = 1, UINT16 = 2, FLOAT32 = 3.
    pub format_type: u64,
    /// Length of the raw output buffer, in bytes.
    pub data_len: usize,
}

/// Bytes in one row of an embedded-NMS output: six `f32` values.
pub const NMS_ROW_BYTES: usize = 24;

/// The format types this decoder understands: UINT8 and FLOAT32.
pub open spec fn format_supported(format_type: u64) -> bool {
    format_type == 1 || format_type == 3
}

/// Exactly one output, whose name contains `nms` in any ASCII case.
pub open spec fn single_nms_named(outputs: Seq<OutputInfo>) -> bool {
    outputs.len() == 1 && contains_ascii_ci(outputs[0].name@, "nms"@)
}

/// The buffer length a grid output of this shape and element type needs.
pub open spec fn grid_len(o: OutputInfo) -> int {
    o.shape@[0] * o.shape@[1] * o.shape@[2] * (if o.is_float32 { 4int } else { 1int })
}

/// One output passes: a supported format, and either whole `f32` NMS rows
/// (`nms`) or exactly the bytes its shape needs.
pub open spec fn output_ok(o: OutputInfo, nms: bool) -> bool {
    &&& format_supported(o.format_type)
    &&& if nms {
        o.is_float32 && o.data_len % NMS_ROW_BYTES == 0
    } else {
        o.data_len == grid_len(o)
    }
}

/// The outputs can be decoded: at least one, and each passes.
pub open spec fn outputs_ok(outputs: Seq<OutputInfo>) -> bool {
    &&& outputs.len() > 0
    &&& forall|i: int| 0 <= i < outputs.len() ==> output_ok(#[trigger] outputs[i], single_nms_named(outputs))
}

/// The `Debug` rendering of a shape: `[a, b, c]`.
pub open spec fn shape_rendering(shape: [usize; 3]) -> Seq<char> {
    "["@ + decimal(shape@[0] as nat) + ", "@ + decimal(shape@[1] as nat) + ", "@ + decimal(shape@[2] as nat) + "]"@
}

/// Why output `o` fails its check (`nms` as in `output_ok`).
pub open spec fn output_refusal(o: OutputInfo, nms: bool) -> Seq<char> {
    if !format_supported(o.format_type) {
        "yu-infer output '"@ + o.name@ + "' has unsupported format_type "@ + decimal(o.format_type as nat)
    } else if nms {
        "yu-infer NMS output '"@ + o.name@ + "' data length "@ + decimal(o.data_len as nat)
            + " is not a multiple of 24 f32 bytes"@
    } else {
        "yu-infer output '"@ + o.name@ + "' data length "@ + decimal(o.data_len as nat) + " does not match shape "@
            + shape_rendering(o.shape) + " (expected "@ + (if grid_len(o) <= usize::MAX {
            decimal(grid_len(o) as nat)
        } else {
            "more than usize::MAX"@
        }) + " bytes)"@
    }
}

fn shape_text(shape: [usize; 3]) -> (r: String)
    ensures
        r@ == shape_rendering(shape),
{
    let a = u64_text(shape[0] as u64);
    let b = u64_text(shape[1] as u64);
    let c = u64_text(shape[2] as u64);
    let s = cat("[", a.as_str());
    let s = cat(s.as_str(), ", ");
    let s = cat(s.as_str(), b.as_str());
    let s = cat(s.as_str(), ", ");
    let s = cat(s.as_str(), c.as_str());
    cat(s.as_str(), "]")
}

/// The buffer length a grid output needs, if it fits in `usize`.
fn expected_grid_len(o: &OutputInfo) -> (r: Option<usize>)
    ensures
        match r {
            Some(n) => n == grid_len(*o),
            None => grid_len(*o) > usize::MAX,
        },
{
    let element_size: usize = if o.is_float32 { 4 } else { 1 };
    let a = o.shape[0];
    let b = o.shape[1];
    let c = o.shape[2];
    if a == 0 || b == 0 || c == 0 {
        proof {
            assert(a * b * c == 0) by (nonlinear_arith)
                requires
                    a == 0 || b == 0 || c == 0,
            ;
        }
        return Some(0);
    }
    match a.checked_mul(b) {
        Some(ab) => match ab.checked_mul(c) {
            Some(abc) => match abc.checked_mul(element_size) {
                Some(n) => Some(n),
                None => None,
            },
            None => {
                proof {
                    assert((a * b) * c * element_size >= (a * b) * c) by (nonlinear_arith)
                        requires
                            element_size >= 1,
                            a >= 1,
                            b >= 1,
                            c >= 1,
                    ;
                }
                None
            },
        },
        None => {
            proof {
                assert((a * b) * c * element_size >= a * b) by (nonlinear_arith)
                    requires
                        element_size >= 1,
                        a >= 1,
                        b >= 1,
                        c >= 1,
                ;
            }
            None
        },
    }
}

/// Check the output tensors before any decoding: there is at least one; each
/// has a supported format type; a single output named like `nms` holds whole
/// `f32` rows of six values, and any other output holds exactly the bytes its
/// shape needs. The error names the first output that fails.
pub fn validate_yolo_outputs(outputs: &Vec<OutputInfo>) -> (r: Result<(), String>)
    ensures
        r is Ok <==> outputs_ok(outputs@),
        outputs@.len() == 0 ==> (r matches Err(m) && m@ == "yu-infer response contained no output tensors"@),
        outputs@.len() > 0 && r is Err ==> exists|i: int|
            #![trigger outputs@[i]]
            0 <= i < outputs@.len() && !output_ok(outputs@[i], single_nms_named(outputs@)) && (forall|j: int|
                0 <= j < i ==> output_ok(#[trigger] outputs@[j], single_nms_named(outputs@))) && (r matches Err(m)
                && m@ == output_refusal(outputs@[i], single_nms_named(outputs@))),
{
    if outputs.len() == 0 {
        return Err(String::from_str("yu-infer response contained no output tensors"));
    }
    proof {
        reveal_strlit("nms");
    }
    let single_nms = outputs.len() == 1 && contains_ascii_case_insensitive(outputs[0].name.as_str(), "nms");
    let mut i: usize = 0;
    while i < outputs.len()
        invariant
            single_nms == single_nms_named(outputs@),
            i <= outputs@.len(),
            forall|j: int| 0 <= j < i ==> output_ok(#[trigger] outputs@[j], single_nms),
        decreases outputs@.len() - i,
    {
        let o = &outputs[i];
        if !(o.format_type == 1 || o.format_type == 3) {
            let ft = u64_text(o.format_type);
            let m = cat("yu-infer output '", o.name.as_str());
            let m = cat(m.as_str(), "' has unsupported format_type ");
            let m = cat(m.as_str(), ft.as_str());
            return Err(m);
        }
        if single_nms {
            if !o.is_float32 || o.data_len % NMS_ROW_BYTES != 0 {
                let n = u64_text(o.data_len as u64);
                let m = cat("yu-infer NMS output '", o.name.as_str());
                let m = cat(m.as_str(), "' data length ");
                let m = cat(m.as_str(), n.as_str());
                let m = cat(m.as_str(), " is not a multiple of 24 f32 bytes");
                return Err(m);
            }
        } else {
            let expected = expected_grid_len(o);
            let matches = match expected {
                Some(n) => o.data_len == n,
                None => false,
            };
            if !matches {
                let n = u64_text(o.data_len as u64);
                let shape = shape_text(o.shape);
                let e = match expected {
                    Some(v) => u64_text(v as u64),
                    None => String::from_str("more than usize::MAX"),
                };
                let m = cat("yu-infer output '", o.name.as_str());
                let m = cat(m.as_str(), "' data length ");
                let m = cat(m.as_str(), n.as_str());
                let m = cat(m.as_str(), " does not match shape ");
                let m = cat(m.as_str(), shape.as_str());
                let m = cat(m.as_str(), " (expected ");
                let m = cat(m.as_str(), e.as_str());
                let m = cat(m.as_str(), " bytes)");
                return Err(m);
            }
        }
        i = i + 1;
    }
    Ok(())
}

/// Exactly one output, of `f32` elements, whose name contains `nms` in any
/// ASCII case: the model ran NMS on the device.
pub open spec fn spec_is_nms_output(outputs: Seq<OutputInfo>) -> bool {
    outputs.len() == 1 && outputs[0].is_float32 && contains_ascii_ci(outputs[0].name@, "nms"@)
}

/// Whether the model's single output already holds NMS rows.
pub fn is_nms_output(outputs: &Vec<OutputInfo>) -> (r: bool)
    ensures
        r == spec_is_nms_output(outputs@),
{
    proof {
        reveal_strlit("nms");
    }
    outputs.len() == 1 && outputs[0].is_float32 && contains_ascii_case_insensitive(outputs[0].name.as_str(), "nms")
}

/// The integer that the `f64` total ordering compares for a value with these
/// bits: the bits read as `i64`, with every bit but the sign flipped when the
/// sign is set.
pub open spec fn total_order_int(bits: u64) -> i64 {
    let x = bits as i64;
    x ^ ((((x >> 63u64) as u64) >> 1u64) as i64)
}

/// An unsigned key for `f64` bits: negative values have every bit flipped,
/// the others get the sign bit set.
pub open spec fn total_order_key_spec(bits: u64) -> u64 {
    if bits >> 63u64 == 1 {
        !bits
    } else {
        bits | 0x8000_0000_0000_0000u64
    }
}

/// The sort key of an `f64` given by its bits, for ordering with
/// `order_by_key_desc`.
pub fn total_order_key(bits: u64) -> (r: u64)
    ensures
        r == total_order_key_spec(bits),
{
    if bits >> 63u64 == 1 {
        !bits
    } else {
        bits | 0x8000_0000_0000_0000u64
    }
}

/// Comparing keys as unsigned integers orders `f64` values exactly as the
/// `f64` total ordering does, and equal keys come only from equal bits.
pub proof fn lemma_key_order_is_total_order(a: u64, b: u64)
    ensures
        (total_order_key_spec(a) < total_order_key_spec(b)) == (total_order_int(a) < total_order_int(b)),
        (total_order_key_spec(a) == total_order_key_spec(b)) == (a == b),
{
    assert((total_order_key_spec(a) < total_order_key_spec(b)) == (total_order_int(a) < total_order_int(b))) by (bit_vector);
    assert((total_order_key_spec(a) == total_order_key_spec(b)) == (a == b)) by (bit_vector);
}

/// Some box of `kept` suppresses box `c`.
pub open spec fn suppressed_by(kept: Seq<usize>, suppresses: Seq<Seq<bool>>, c: usize) -> bool {
    exists|i: int| 0 <= i < kept.len() && suppresses[kept[i] as int][c as int]
}

/// Greedy suppression over boxes taken in `order`: a box is kept unless a box
/// kept before it suppresses it.
pub open spec fn greedy_keep(order: Seq<usize>, suppresses: Seq<Seq<bool>>) -> Seq<usize>
    decreases order.len(),
{
    if order.len() == 0 {
        Seq::<usize>::empty()
    } else {
        let prev = greedy_keep(order.drop_last(), suppresses);
        if suppressed_by(prev, suppresses, order.last()) {
            prev
        } else {
            prev.push(order.last())
        }
    }
}

/// `suppresses` is an `n` by `n` table.
pub open spec fn square(suppresses: Seq<Seq<bool>>, n: nat) -> bool {
    &&& suppresses.len() == n
    &&& forall|i: int| 0 <= i < n ==> (#[trigger] suppresses[i]).len() == n
}

/// No kept box suppresses a box kept after it.
pub open spec fn no_kept_suppressed(kept: Seq<usize>, suppresses: Seq<Seq<bool>>) -> bool {
    forall|i: int, j: int| 0 <= i < j < kept.len() ==> !suppresses[#[trigger] kept[i] as int][#[trigger] kept[j] as int]
}

/// Box `c` is kept, or a kept box ranked before it suppresses it.
pub open spec fn kept_or_suppressed(keys: Seq<u64>, kept: Seq<usize>, suppresses: Seq<Seq<bool>>, c: usize) -> bool {
    ||| reaches(kept, c as int)
    ||| exists|i: int|
        0 <= i < kept.len() && suppresses[kept[i] as int][c as int] && ranks_before(keys, true, #[trigger] kept[i], c)
}

proof fn lemma_greedy_keep(keys: Seq<u64>, order: Seq<usize>, suppresses: Seq<Seq<bool>>)
    requires
        ranked_desc(keys, true, order),
        forall|p: int| 0 <= p < order.len() ==> (#[trigger] order[p]) < keys.len(),
        square(suppresses, keys.len()),
    ensures
        forall|i: int| 0 <= i < greedy_keep(order, suppresses).len() ==> #[trigger] reaches(order, greedy_keep(order, suppresses)[i] as int),
        ranked_desc(keys, true, greedy_keep(order, suppresses)),
        no_kept_suppressed(greedy_keep(order, suppresses), suppresses),
        forall|p: int| 0 <= p < order.len() ==> kept_or_suppressed(keys, greedy_keep(order, suppresses), suppresses, #[trigger] order[p]),
    decreases order.len(),
{
    if order.len() > 0 {
        let front = order.drop_last();
        let c = order.last();
        let prev = greedy_keep(front, suppresses);
        assert(ranked_desc(keys, true, front));
        lemma_greedy_keep(keys, front, suppresses);
        let kept = greedy_keep(order, suppresses);
        assert forall|i: int| 0 <= i < prev.len() implies ranks_before(keys, true, #[trigger] prev[i], c) by {
            assert(reaches(front, prev[i] as int));
            let p = choose|p: int| 0 <= p < front.len() && front[p] == prev[i];
            assert(order[p] == prev[i]);
            assert(ranks_before(keys, true, order[p], order[order.len() - 1]));
        }
        assert forall|i: int| 0 <= i < kept.len() implies #[trigger] reaches(order, kept[i] as int) by {
            if i < prev.len() {
                assert(kept[i] == prev[i]);
                assert(reaches(front, prev[i] as int));
                let p = choose|p: int| 0 <= p < front.len() && front[p] == prev[i];
                assert(order[p] == kept[i]);
            } else {
                assert(order[order.len() - 1] == kept[i]);
            }
        }
        assert forall|p: int| 0 <= p < order.len() implies kept_or_suppressed(keys, kept, suppresses, #[trigger] order[p]) by {
            if p < front.len() {
                assert(front[p] == order[p]);
                assert(kept_or_suppressed(keys, prev, suppresses, front[p]));
                if reaches(prev, order[p] as int) {
                    let q = choose|q: int| 0 <= q < prev.len() && prev[q] == order[p];
                    assert(kept[q] == order[p]);
                } else {
                    let q = choose|q: int|
                        0 <= q < prev.len() && suppresses[prev[q] as int][order[p] as int] && ranks_before(keys, true, #[trigger] prev[q], order[p]);
                    assert(kept[q] == prev[q]);
                }
            } else {
                if suppressed_by(prev, suppresses, c) {
                    let q = choose|q: int| 0 <= q < prev.len() && suppresses[prev[q] as int][c as int];
                    assert(ranks_before(keys, true, prev[q], c));
                    assert(kept[q] == prev[q]);
                } else {
                    assert(kept[prev.len() as int] == c);
                }
            }
        }
        if !suppressed_by(prev, suppresses, c) {
            assert forall|i: int, j: int| 0 <= i < j < kept.len() implies !suppresses[#[trigger] kept[i] as int][#[trigger] kept[j] as int] by {
                if j == prev.len() {
                    assert(kept[i] == prev[i]);
                    assert(kept[j] == c);
                } else {
                    assert(kept[i] == prev[i]);
                    assert(kept[j] == prev[j]);
                }
            }
            assert forall|i: int, j: int| 0 <= i < j < kept.len() implies ranks_before(keys, true, #[trigger] kept[i], #[trigger] kept[j]) by {
                if j == prev.len() {
                    assert(kept[i] == prev[i]);
                } else {
                    assert(kept[i] == prev[i]);
                    assert(kept[j] == prev[j]);
                }
            }
        }
    }
}

/// Greedy non-maximum suppression. Boxes are taken by descending score key,
/// equal keys by descending index; each box is kept unless a box kept before
/// it suppresses it (`suppresses[a][b]`: box `b`'s overlap with box `a` is
/// above the threshold). The kept indices come back in the order taken.
pub fn nms(score_keys: &Vec<u64>, suppresses: &Vec<Vec<bool>>) -> (r: Vec<usize>)
    requires
        square(suppresses.deep_view(), score_keys@.len()),
    ensures
        exists|order: Seq<usize>|
            #![trigger is_permutation(order, score_keys@.len())]
            is_permutation(order, score_keys@.len()) && ranked_desc(score_keys@, true, order)
                && r@ == greedy_keep(order, suppresses.deep_view()),
        forall|i: int| 0 <= i < r@.len() ==> (#[trigger] r@[i]) < score_keys@.len(),
        ranked_desc(score_keys@, true, r@),
        no_kept_suppressed(r@, suppresses.deep_view()),
        forall|c: usize| c < score_keys@.len() ==> #[trigger] kept_or_suppressed(score_keys@, r@, suppresses.deep_view(), c),
{
    let n = score_keys.len();
    let ghost sup = suppresses.deep_view();
    let order = order_by_key_desc(score_keys, true);
    let mut kept: Vec<usize> = Vec::new();
    let mut k: usize = 0;
    proof {
        assert(order@.take(0) =~= Seq::<usize>::empty());
    }
    while k < n
        invariant
            n == score_keys@.len(),
            sup == suppresses.deep_view(),
            square(sup, n as nat),
            is_permutation(order@, n as nat),
            k <= n,
            kept@ == greedy_keep(order@.take(k as int), sup),
            forall|i: int| 0 <= i < kept@.len() ==> #[trigger] kept@[i] < n,
        decreases n - k,
    {
        let c = order[k];
        let mut hit = false;
        let mut i: usize = 0;
        while i < kept.len()
            invariant
                n == score_keys@.len(),
                sup == suppresses.deep_view(),
                square(sup, n as nat),
                c < n,
                i <= kept@.len(),
                forall|q: int| 0 <= q < kept@.len() ==> #[trigger] kept@[q] < n,
                hit == exists|q: int| 0 <= q < i && sup[kept@[q] as int][c as int],
            decreases kept@.len() - i,
        {
            let a = kept[i];
            proof {
                assert(suppresses@[a as int]@ == sup[a as int]);
            }
            if suppresses[a][c] {
                hit = true;
            }
            i = i + 1;
        }
        proof {
            let t = order@.take(k + 1);
            assert(t.drop_last() =~= order@.take(k as int));
            assert(t.last() == c);
            assert(hit == suppressed_by(kept@, sup, c));
        }
        if !hit {
            kept.push(c);
        }
        k = k + 1;
    }
    proof {
        assert(order@.take(n as int) =~= order@);
        lemma_greedy_keep(score_keys@, order@, sup);
        lemma_permutation_onto(order@, n as nat);
        assert forall|c: usize| c < n implies #[trigger] kept_or_suppressed(score_keys@, kept@, sup, c) by {
            assert(reaches(order@, c as int));
            let p = choose|p: int| 0 <= p < order@.len() && order@[p] == c;
            assert(kept_or_suppressed(score_keys@, kept@, sup, order@[p]));
        }
    }
    kept
}

/// The positions holding class `c`, ascending.
pub open spec fn members_of(class_ids: Seq<u32>, c: u32) -> Seq<usize>
    decreases class_ids.len(),
{
    if class_ids.len() == 0 {
        Seq::<usize>::empty()
    } else {
        let m = members_of(class_ids.drop_last(), c);
        if class_ids.last() == c {
            m.push((class_ids.len() - 1) as usize)
        } else {
            m
        }
    }
}

/// The score keys of the listed boxes.
pub open spec fn sub_keys(keys: Seq<u64>, members: Seq<usize>) -> Seq<u64> {
    members.map_values(|i: usize| keys[i as int])
}

/// The suppression table restricted to the listed boxes.
pub open spec fn sub_table(suppresses: Seq<Seq<bool>>, members: Seq<usize>) -> Seq<Seq<bool>> {
    members.map_values(|a: usize| members.map_values(|b: usize| suppresses[a as int][b as int]))
}

/// `kept` is what `nms` keeps among the listed boxes, as positions in the
/// list.
pub open spec fn nms_of(keys: Seq<u64>, suppresses: Seq<Seq<bool>>, members: Seq<usize>, kept: Seq<usize>) -> bool {
    exists|order: Seq<usize>|
        #![trigger is_permutation(order, members.len())]
        is_permutation(order, members.len()) && ranked_desc(sub_keys(keys, members), true, order) && kept == greedy_keep(
            order,
            sub_table(suppresses, members),
        )
}

/// `classes` lists every class present, once each, in ascending order.
pub open spec fn class_list(class_ids: Seq<u32>, classes: Seq<u32>) -> bool {
    &&& forall|i: int, j: int| 0 <= i < j < classes.len() ==> #[trigger] classes[i] < #[trigger] classes[j]
    &&& forall|i: int| 0 <= i < classes.len() ==> class_ids.contains(#[trigger] classes[i])
    &&& forall|k: int| 0 <= k < class_ids.len() ==> classes.contains(#[trigger] class_ids[k])
}

/// The kept boxes of the first `j` classes, class after class, each class's
/// boxes in the order its suppression kept them.
pub open spec fn joined_kept(class_ids: Seq<u32>, classes: Seq<u32>, kepts: Seq<Seq<usize>>, j: nat) -> Seq<usize>
    decreases j,
{
    if j == 0 {
        Seq::<usize>::empty()
    } else {
        let m = members_of(class_ids, classes[j - 1]);
        joined_kept(class_ids, classes, kepts, (j - 1) as nat) + kepts[j - 1].map_values(|q: usize| m[q as int])
    }
}

proof fn lemma_members_of(class_ids: Seq<u32>, c: u32)
    requires
        class_ids.len() <= usize::MAX,
    ensures
        forall|i: int| 0 <= i < members_of(class_ids, c).len() ==> (#[trigger] members_of(class_ids, c)[i]) < class_ids.len()
            && class_ids[members_of(class_ids, c)[i] as int] == c,
    decreases class_ids.len(),
{
    if class_ids.len() > 0 {
        let front = class_ids.drop_last();
        lemma_members_of(front, c);
        let m = members_of(front, c);
        let all = members_of(class_ids, c);
        assert forall|i: int| 0 <= i < all.len() implies (#[trigger] all[i]) < class_ids.len() && class_ids[all[i] as int] == c by {
            if i < m.len() {
                assert(all[i] == m[i]);
                assert(front[m[i] as int] == class_ids[m[i] as int]);
            } else {
                assert(class_ids.last() == c);
                assert(all[i] == (class_ids.len() - 1) as usize);
            }
        }
    }
}

fn members_of_class(class_ids: &Vec<u32>, c: u32) -> (r: Vec<usize>)
    ensures
        r@ == members_of(class_ids@, c),
{
    let mut out: Vec<usize> = Vec::new();
    let mut k: usize = 0;
    proof {
        assert(class_ids@.take(0) =~= Seq::<u32>::empty());
    }
    while k < class_ids.len()
        invariant
            k <= class_ids@.len(),
            out@ == members_of(class_ids@.take(k as int), c),
        decreases class_ids@.len() - k,
    {
        proof {
            let t = class_ids@.take(k + 1);
            assert(t.drop_last() =~= class_ids@.take(k as int));
        }
        if class_ids[k] == c {
            out.push(k);
        }
        k = k + 1;
    }
    proof {
        assert(class_ids@.take(k as int) =~= class_ids@);
    }
    out
}

/// The smallest class present that is above `floor` (any class when `floor`
/// is `None`).
fn next_class(class_ids: &Vec<u32>, floor: Option<u32>) -> (r: Option<u32>)
    ensures
        r matches Some(c) ==> class_ids@.contains(c),
        r matches Some(c) ==> (floor is Some ==> floor->0 < c),
        r matches Some(c) ==> forall|k: int|
            0 <= k < class_ids@.len() && (floor is Some ==> floor->0 < #[trigger] class_ids@[k]) ==> c <= class_ids@[k],
        r is None ==> (class_ids@.len() == 0 || floor is Some),
        r is None ==> forall|k: int| 0 <= k < class_ids@.len() ==> #[trigger] class_ids@[k] <= floor->0,
{
    let mut best: Option<u32> = None;
    let mut k: usize = 0;
    while k < class_ids.len()
        invariant
            k <= class_ids@.len(),
            best matches Some(c) ==> class_ids@.contains(c),
            best matches Some(c) ==> (floor is Some ==> floor->0 < c),
            best matches Some(c) ==> forall|m: int|
                0 <= m < k && (floor is Some ==> floor->0 < #[trigger] class_ids@[m]) ==> c <= class_ids@[m],
            best is None ==> (k == 0 || floor is Some),
            best is None ==> forall|m: int| 0 <= m < k ==> #[trigger] class_ids@[m] <= floor->0,
        decreases class_ids@.len() - k,
    {
        let v = class_ids[k];
        let above = match floor {
            Some(f) => f < v,
            None => true,
        };
        if above {
            match best {
                Some(b) => {
                    if v < b {
                        best = Some(v);
                    }
                },
                None => {
                    best = Some(v);
                },
            }
        }
        proof {
            assert(class_ids@[k as int] == v);
            if best == Some(v) {
                assert(class_ids@.contains(v));
            }
        }
        k = k + 1;
    }
    best
}

/// Suppression run separately within each class: the classes present are
/// taken in ascending order, and each contributes the boxes `nms` keeps among
/// its own boxes (an overlap between boxes of different classes suppresses
/// nothing). Returns indices into the candidate list.
pub fn classwise_nms(class_ids: &Vec<u32>, score_keys: &Vec<u64>, suppresses: &Vec<Vec<bool>>) -> (r: Vec<usize>)
    requires
        class_ids@.len() == score_keys@.len(),
        square(suppresses.deep_view(), score_keys@.len()),
    ensures
        exists|classes: Seq<u32>, kepts: Seq<Seq<usize>>|
            #![trigger class_list(class_ids@, classes), joined_kept(class_ids@, classes, kepts, classes.len())]
            {
                &&& class_list(class_ids@, classes)
                &&& kepts.len() == classes.len()
                &&& forall|j: int|
                    0 <= j < classes.len() ==> nms_of(
                        score_keys@,
                        suppresses.deep_view(),
                        members_of(class_ids@, classes[j]),
                        #[trigger] kepts[j],
                    )
                &&& r@ == joined_kept(class_ids@, classes, kepts, classes.len())
            },
{
    let n = score_keys.len();
    let ghost sup = suppresses.deep_view();
    let ghost mut classes: Seq<u32> = Seq::empty();
    let ghost mut kepts: Seq<Seq<usize>> = Seq::empty();
    let mut out: Vec<usize> = Vec::new();
    let mut floor: Option<u32> = None;
    loop
        invariant
            n == score_keys@.len(),
            n == class_ids@.len(),
            sup == suppresses.deep_view(),
            square(sup, n as nat),
            kepts.len() == classes.len(),
            forall|i: int, j: int| 0 <= i < j < classes.len() ==> #[trigger] classes[i] < #[trigger] classes[j],
            forall|i: int| 0 <= i < classes.len() ==> class_ids@.contains(#[trigger] classes[i]),
            match floor {
                Some(f) => classes.len() > 0 && classes.last() == f && forall|k: int|
                    0 <= k < n && #[trigger] class_ids@[k] <= f ==> classes.contains(class_ids@[k]),
                None => classes.len() == 0,
            },
            forall|j: int|
                0 <= j < classes.len() ==> nms_of(score_keys@, sup, members_of(class_ids@, classes[j]), #[trigger] kepts[j]),
            out@ == joined_kept(class_ids@, classes, kepts, classes.len()),
        ensures
            class_list(class_ids@, classes),
            kepts.len() == classes.len(),
            forall|j: int|
                0 <= j < classes.len() ==> nms_of(score_keys@, sup, members_of(class_ids@, classes[j]), #[trigger] kepts[j]),
            out@ == joined_kept(class_ids@, classes, kepts, classes.len()),
        decreases (if floor is Some { 0x1_0000_0000int - floor->0 } else { 0x1_0000_0001int }),
    {
        let next = next_class(class_ids, floor);
        let c = match next {
            Some(c) => c,
            None => {
                proof {
                    assert forall|k: int| 0 <= k < class_ids@.len() implies classes.contains(#[trigger] class_ids@[k]) by {
                        assert(floor is Some);
                        assert(class_ids@[k] <= floor->0);
                    }
                    assert(class_list(class_ids@, classes));
                }
                break;
            },
        };
        let members = members_of_class(class_ids, c);
        proof {
            lemma_members_of(class_ids@, c);
        }
        let m = members.len();
        let mut keys: Vec<u64> = Vec::new();
        let mut table: Vec<Vec<bool>> = Vec::new();
        let mut a: usize = 0;
        while a < m
            invariant
                n == score_keys@.len(),
                n == class_ids@.len(),
                sup == suppresses.deep_view(),
                square(sup, n as nat),
                m == members@.len(),
                forall|i: int| 0 <= i < m ==> (#[trigger] members@[i]) < n,
                a <= m,
                keys@ == sub_keys(score_keys@, members@).take(a as int),
                table@.len() == a,
                table.deep_view() == sub_table(sup, members@).take(a as int),
            decreases m - a,
        {
            let ia = members[a];
            keys.push(score_keys[ia]);
            let mut row: Vec<bool> = Vec::new();
            let mut b: usize = 0;
            while b < m
                invariant
                    n == score_keys@.len(),
                    sup == suppresses.deep_view(),
                    square(sup, n as nat),
                    m == members@.len(),
                    forall|i: int| 0 <= i < m ==> (#[trigger] members@[i]) < n,
                    a < m,
                    ia == members@[a as int],
                    b <= m,
                    row@ == members@.take(b as int).map_values(|x: usize| sup[ia as int][x as int]),
                decreases m - b,
            {
                let ib = members[b];
                proof {
                    assert(suppresses@[ia as int]@ == sup[ia as int]);
                }
                row.push(suppresses[ia][ib]);
                proof {
                    assert(members@.take(b + 1) =~= members@.take(b as int).push(ib));
                    assert(row@ =~= members@.take(b + 1).map_values(|x: usize| sup[ia as int][x as int]));
                }
                b = b + 1;
            }
            let ghost before = table.deep_view();
            table.push(row);
            proof {
                assert(members@.take(m as int) =~= members@);
                assert(keys@ =~= sub_keys(score_keys@, members@).take(a + 1));
                assert(table.deep_view() =~= sub_table(sup, members@).take(a + 1)) by {
                    assert forall|i: int| 0 <= i < a + 1 implies #[trigger] table.deep_view()[i] == sub_table(sup, members@)[i] by {
                        if i < a {
                            assert(table.deep_view()[i] == before[i]);
                        } else {
                            assert(table.deep_view()[i] == row@);
                        }
                    }
                }
            }
            a = a + 1;
        }
        proof {
            assert(keys@ =~= sub_keys(score_keys@, members@));
            assert(table.deep_view() =~= sub_table(sup, members@));
        }
        let local = nms(&keys, &table);
        let ghost prev_out = out@;
        let mut q: usize = 0;
        while q < local.len()
            invariant
                m == members@.len(),
                forall|i: int| 0 <= i < local@.len() ==> (#[trigger] local@[i]) < m,
                q <= local@.len(),
                out@ == prev_out + local@.take(q as int).map_values(|x: usize| members@[x as int]),
            decreases local@.len() - q,
        {
            out.push(members[local[q]]);
            proof {
                assert(local@.take(q + 1) =~= local@.take(q as int).push(local@[q as int]));
                assert(out@ =~= prev_out + local@.take(q + 1).map_values(|x: usize| members@[x as int]));
            }
            q = q + 1;
        }
        proof {
            assert(local@.take(local@.len() as int) =~= local@);
            let old_classes = classes;
            let old_kepts = kepts;
            classes = classes.push(c);
            kepts = kepts.push(local@);
            assert(nms_of(score_keys@, sup, members_of(class_ids@, c), local@));
            assert forall|j: int| 0 <= j < classes.len() implies nms_of(score_keys@, sup, members_of(class_ids@, classes[j]), #[trigger] kepts[j]) by {
                if j < old_classes.len() {
                    assert(classes[j] == old_classes[j]);
                    assert(kepts[j] == old_kepts[j]);
                }
            }
            assert(joined_kept(class_ids@, classes, kepts, (classes.len() - 1) as nat) == joined_kept(class_ids@, old_classes, old_kepts, old_classes.len())) by {
                lemma_joined_kept_prefix(class_ids@, old_classes, old_kepts, classes, kepts, old_classes.len());
            }
            assert(out@ =~= joined_kept(class_ids@, classes, kepts, classes.len()));
            assert forall|k: int| 0 <= k < n && #[trigger] class_ids@[k] <= c implies classes.contains(class_ids@[k]) by {
                if class_ids@[k] == c {
                    assert(classes[classes.len() - 1] == c);
                } else if floor is Some && class_ids@[k] <= floor->0 {
                    let w = choose|w: int| 0 <= w < old_classes.len() && old_classes[w] == class_ids@[k];
                    assert(classes[w] == class_ids@[k]);
                } else {
                    assert(c <= class_ids@[k]);
                }
            }
        }
        floor = Some(c);
    }
    out
}

proof fn lemma_joined_kept_prefix(
    class_ids: Seq<u32>,
    c1: Seq<u32>,
    k1: Seq<Seq<usize>>,
    c2: Seq<u32>,
    k2: Seq<Seq<usize>>,
    j: nat,
)
    requires
        j <= c1.len(),
        j <= k1.len(),
        j <= c2.len(),
        j <= k2.len(),
        forall|i: int| 0 <= i < j ==> c1[i] == c2[i] && k1[i] == k2[i],
    ensures
        joined_kept(class_ids, c1, k1, j) == joined_kept(class_ids, c2, k2, j),
    decreases j,
{
    if j > 0 {
        lemma_joined_kept_prefix(class_ids, c1, k1, c2, k2, (j - 1) as nat);
    }
}

} // verus!
