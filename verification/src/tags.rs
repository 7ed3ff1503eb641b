//! Ordered `(tag, category)` vocabulary assembly, driven by the profile's
//! tag source: a CSV table or a JSON `index -> tag` dictionary.
use vstd::prelude::*;
use vstd::utf8::{encode_utf8, valid_utf8};
use crate::error::InferError;
use crate::profile::{TagSourceSpec, assoc_find, keys_distinct, lemma_assoc_find_skip, MAX_TAGS, MAX_TAG_LEN, METADATA_MAX_BYTES};
use crate::text::{concat, debug_text, debug_rendering, decimal, parse_i64, parse_i64_spec, split_chars, split_on, string_of_chars, text_is, u64_text};
use crate::json::{
    get, has_unique_keys, keys_unique, entry_find, lemma_navigate_keys_unique, lemma_navigate_prefix_none, navigate,
    obj_get, tag_name_of, tag_text, JsonValue,
};
use crate::order::{
    chars_lt, entries_sorted, is_permutation, lemma_chars_lt_total, lemma_chars_lt_transitive, lemma_permutation_onto,
    order_entries, reaches, text_lt,
};

verus! {

/// The vocabulary in score order, and the positions whose category is
/// `rating`.
#[derive(Debug, Clone, PartialEq, Eq)]
pub struct TagMeta {
    pub tags: Vec<(String, String)>,
    pub rating_indices: Vec<usize>,
}

/// The UTF-8 length of `s`, in bytes.
pub open spec fn utf8_len(s: Seq<char>) -> nat {
    encode_utf8(s).len()
}

/// The vocabulary stays within the tag-count and tag-length caps.
pub open spec fn caps_ok(pairs: Seq<(Seq<char>, Seq<char>)>) -> bool {
    &&& pairs.len() <= MAX_TAGS
    &&& forall|i: int| 0 <= i < pairs.len() ==> utf8_len((#[trigger] pairs[i]).0) <= MAX_TAG_LEN
}

/// `m` is the refusal of a vocabulary that breaks a cap, for the source
/// `ctx`: too many tags, else the first tag that is too long.
pub open spec fn caps_refusal(pairs: Seq<(Seq<char>, Seq<char>)>, ctx: Seq<char>, m: Seq<char>) -> bool {
    if pairs.len() > MAX_TAGS {
        m == ctx + " produced "@ + decimal(pairs.len()) + " tags exceeding cap 100000"@
    } else {
        exists|i: int|
            #![trigger pairs[i]]
            0 <= i < pairs.len() && utf8_len(pairs[i].0) > MAX_TAG_LEN && (forall|j: int|
                0 <= j < i ==> utf8_len((#[trigger] pairs[j]).0) <= MAX_TAG_LEN) && m == ctx
                + " contains tag of length "@ + decimal(utf8_len(pairs[i].0)) + " exceeding 256"@
    }
}

/// Check the vocabulary against the tag-count and tag-length caps; `ctx`
/// names the source in the error.
pub fn validate_caps(pairs: &Vec<(String, String)>, ctx: &str) -> (r: Result<(), InferError>)
    ensures
        r is Ok <==> caps_ok(pairs.deep_view()),
        r is Err ==> (r matches Err(InferError::TagMetadata(m)) && caps_refusal(pairs.deep_view(), ctx@, m@)),
{
    let ghost pv = pairs.deep_view();
    if pairs.len() > MAX_TAGS {
        let n = u64_text(pairs.len() as u64);
        let msg = concat(&[ctx, " produced ", n.as_str(), " tags exceeding cap 100000"]);
        return Err(InferError::TagMetadata(msg));
    }
    let mut i: usize = 0;
    while i < pairs.len()
        invariant
            pv == pairs.deep_view(),
            i <= pairs@.len(),
            pairs@.len() <= MAX_TAGS,
            forall|j: int| 0 <= j < i ==> utf8_len((#[trigger] pv[j]).0) <= MAX_TAG_LEN,
        decreases pairs@.len() - i,
    {
        let len = pairs[i].0.as_str().as_bytes().len();
        if len > MAX_TAG_LEN {
            proof {
                assert(pv[i as int].0 == pairs@[i as int].0@);
            }
            let n = u64_text(len as u64);
            let msg = concat(&[ctx, " contains tag of length ", n.as_str(), " exceeding 256"]);
            proof {
                assert(pv[i as int].0 == pairs@[i as int].0@);
                assert(msg@ == ctx@ + " contains tag of length "@ + decimal(utf8_len(pv[i as int].0)) + " exceeding 256"@);
            }
            return Err(InferError::TagMetadata(msg));
        }
        proof {
            assert(pv[i as int].0 == pairs@[i as int].0@);
        }
        i = i + 1;
    }
    Ok(())
}

/// Refuse a metadata file larger than `METADATA_MAX_BYTES` before reading it.
pub fn check_metadata_size(size: u64, path: &str) -> (r: Result<(), InferError>)
    ensures
        r is Ok <==> size <= METADATA_MAX_BYTES,
        size > METADATA_MAX_BYTES ==> (r matches Err(InferError::TagMetadata(m)) && m@ == path@
            + " exceeds 33554432 bytes ("@ + decimal(size as nat) + ")"@),
{
    if size > METADATA_MAX_BYTES {
        let n = u64_text(size);
        let msg = concat(&[path, " exceeds 33554432 bytes (", n.as_str(), ")"]);
        return Err(InferError::TagMetadata(msg));
    }
    Ok(())
}

/// What `std::str::from_utf8` reports, rendered with `Display`, for bytes that
/// are not UTF-8.
pub uninterp spec fn utf8_error_rendering(bytes: Seq<u8>) -> Seq<char>;

/// `std::str::from_utf8`, copied into a `String`, or its error rendered.
/// Trusted: succeeds exactly on valid UTF-8, and the text's UTF-8 encoding is
/// the input; a failure's text is `utf8_error_rendering` of the bytes.
#[verifier::external_body]
fn utf8_text(bytes: &[u8]) -> (r: Result<String, String>)
    ensures
        r is Ok <==> valid_utf8(bytes@),
        r matches Ok(s) ==> encode_utf8(s@) == bytes@,
        r matches Err(t) ==> t@ == utf8_error_rendering(bytes@),
{
    match std::str::from_utf8(bytes) {
        Ok(s) => Ok(String::from(s)),
        Err(e) => Err(e.to_string()),
    }
}

/// `s` without one leading byte-order mark, if it has one.
pub open spec fn without_bom(s: Seq<char>) -> Seq<char> {
    if s.len() > 0 && s[0] == '\u{feff}' {
        s.drop_first()
    } else {
        s
    }
}

/// The text of a metadata file: it must be UTF-8, and one leading byte-order
/// mark is dropped.
pub fn metadata_text(bytes: &[u8], path: &str) -> (r: Result<String, InferError>)
    ensures
        r is Ok <==> valid_utf8(bytes@),
        r matches Ok(s) ==> exists|t: Seq<char>| encode_utf8(t) == bytes@ && s@ == without_bom(t),
        !valid_utf8(bytes@) ==> (r matches Err(InferError::TagMetadata(m)) && m@ == path@ + " not UTF-8: "@
            + utf8_error_rendering(bytes@)),
{
    match utf8_text(bytes) {
        Ok(s) => {
            let cs = crate::text::chars_of(s.as_str());
            if cs.len() > 0 && cs[0] == '\u{feff}' {
                let mut rest: Vec<char> = Vec::new();
                let mut i: usize = 1;
                while i < cs.len()
                    invariant
                        1 <= i <= cs@.len(),
                        rest@ == cs@.subrange(1, i as int),
                    decreases cs@.len() - i,
                {
                    rest.push(cs[i]);
                    proof {
                        assert(cs@.subrange(1, i + 1) =~= cs@.subrange(1, i as int).push(cs@[i as int]));
                    }
                    i = i + 1;
                }
                proof {
                    assert(cs@.subrange(1, cs@.len() as int) =~= cs@.drop_first());
                }
                Ok(crate::text::string_of_chars(&rest))
            } else {
                Ok(s)
            }
        },
        Err(t) => {
            let msg = concat(&[path, " not UTF-8: ", t.as_str()]);
            Err(InferError::TagMetadata(msg))
        },
    }
}

/// The header fields and the records of a CSV document read with a given
/// delimiter, a header row and rows of any length; when the reader reports
/// an error, that error's `Display` text.
pub uninterp spec fn csv_read(bytes: Seq<u8>, delimiter: u8) -> Result<
    (Seq<Seq<char>>, Seq<Seq<Seq<char>>>),
    Seq<char>,
>;

/// `csv::ReaderBuilder` (delimiter, `has_headers(true)`, `flexible(true)`)
/// over `bytes`: the header fields, then each record's fields; the first
/// error stops the read and is rendered with `Display`.
/// Trusted: the outcome is `csv_read` of the bytes and the delimiter.
#[verifier::external_body]
fn read_csv_table(bytes: &[u8], delimiter: u8) -> (r: Result<(Vec<String>, Vec<Vec<String>>), String>)
    ensures
        match r {
            Ok(t) => csv_read(bytes@, delimiter) == Ok::<_, Seq<char>>((t.0.deep_view(), t.1.deep_view())),
            Err(e) => csv_read(bytes@, delimiter) == Err::<(Seq<Seq<char>>, Seq<Seq<Seq<char>>>), _>(e@),
        },
{
    let mut reader = csv::ReaderBuilder::new().delimiter(delimiter).has_headers(true).flexible(
        true,
    ).from_reader(bytes);
    let headers: Vec<String> = reader.headers().map_err(|e| e.to_string())?.iter().map(String::from).collect();
    let mut records: Vec<Vec<String>> = Vec::new();
    for record in reader.records() {
        records.push(record.map_err(|e| e.to_string())?.iter().map(String::from).collect());
    }
    Ok((headers, records))
}

/// The position of the first header equal to `col`.
pub open spec fn first_index_of(headers: Seq<Seq<char>>, col: Seq<char>) -> Option<int>
    decreases headers.len(),
{
    if headers.len() == 0 {
        None
    } else if headers.last() == col && first_index_of(headers.drop_last(), col) is None {
        Some(headers.len() - 1)
    } else {
        first_index_of(headers.drop_last(), col)
    }
}

/// A record's field at `idx`, or the empty text when the column is missing
/// from the header or the record is too short.
pub open spec fn field_at(record: Seq<Seq<char>>, idx: Option<int>) -> Seq<char> {
    match idx {
        Some(i) => if 0 <= i < record.len() {
            record[i]
        } else {
            Seq::<char>::empty()
        },
        None => Seq::<char>::empty(),
    }
}

/// A raw category mapped through `map`, or kept as it is when unmapped.
pub open spec fn mapped_category(map: Seq<(String, String)>, raw: Seq<char>) -> Seq<char> {
    match assoc_find(map, raw) {
        Some(c) => c@,
        None => raw,
    }
}

/// The `(tag, category)` pair of one CSV record.
pub open spec fn csv_pair(
    headers: Seq<Seq<char>>,
    record: Seq<Seq<char>>,
    name_col: Seq<char>,
    category_col: Seq<char>,
    map: Seq<(String, String)>,
) -> (Seq<char>, Seq<char>) {
    (
        field_at(record, first_index_of(headers, name_col)),
        mapped_category(map, field_at(record, first_index_of(headers, category_col))),
    )
}

/// The pairs of every record of a table, in file order.
pub open spec fn csv_pairs(
    headers: Seq<Seq<char>>,
    records: Seq<Seq<Seq<char>>>,
    name_col: Seq<char>,
    category_col: Seq<char>,
    map: Seq<(String, String)>,
) -> Seq<(Seq<char>, Seq<char>)> {
    records.map_values(|rec: Seq<Seq<char>>| csv_pair(headers, rec, name_col, category_col, map))
}

proof fn lemma_first_index_range(hs: Seq<Seq<char>>, col: Seq<char>)
    ensures
        first_index_of(hs, col) matches Some(i) ==> 0 <= i < hs.len(),
    decreases hs.len(),
{
    if hs.len() > 0 {
        lemma_first_index_range(hs.drop_last(), col);
    }
}

fn position_of(headers: &Vec<String>, col: &str) -> (r: Option<usize>)
    ensures
        first_index_of(headers.deep_view(), col@) == (match r {
            Some(i) => Some(i as int),
            None => None,
        }),
{
    let ghost hv = headers.deep_view();
    let mut i: usize = 0;
    while i < headers.len()
        invariant
            hv == headers.deep_view(),
            i <= hv.len(),
            first_index_of(hv.take(i as int), col@) is None,
        decreases hv.len() - i,
    {
        proof {
            assert(hv.take(i + 1).drop_last() =~= hv.take(i as int));
        }
        if text_is(headers[i].as_str(), col) {
            proof {
                lemma_first_index_prefix(hv, col@, i + 1);
            }
            return Some(i);
        }
        i = i + 1;
    }
    proof {
        assert(hv.take(i as int) =~= hv);
    }
    None
}

proof fn lemma_first_index_prefix(hs: Seq<Seq<char>>, col: Seq<char>, k: int)
    requires
        0 < k <= hs.len(),
        first_index_of(hs.take(k), col) is Some,
    ensures
        first_index_of(hs, col) == first_index_of(hs.take(k), col),
    decreases hs.len() - k,
{
    if k < hs.len() {
        assert(hs.take(k + 1).drop_last() =~= hs.take(k));
        lemma_first_index_prefix(hs, col, k + 1);
    } else {
        assert(hs.take(k) =~= hs);
    }
}

fn field_of(record: &Vec<String>, idx: Option<usize>) -> (r: String)
    ensures
        r@ == field_at(record.deep_view(), match idx {
            Some(i) => Some(i as int),
            None => None,
        }),
{
    match idx {
        Some(i) => if i < record.len() {
            record[i].clone()
        } else {
            String::new()
        },
        None => String::new(),
    }
}

/// The text paired with the first key equal to `key`, if any.
pub fn assoc_get_text(list: &Vec<(String, String)>, key: &str) -> (r: Option<String>)
    ensures
        match assoc_find(list@, key@) {
            Some(v) => r matches Some(x) && x@ == v@,
            None => r is None,
        },
{
    let mut i: usize = 0;
    while i < list.len()
        invariant
            i <= list@.len(),
            forall|j: int| 0 <= j < i ==> (#[trigger] list@[j]).0@ != key@,
        decreases list@.len() - i,
    {
        if text_is(list[i].0.as_str(), key) {
            proof {
                lemma_assoc_find_skip(list@, key@, i as int);
            }
            return Some(list[i].1.clone());
        }
        i = i + 1;
    }
    proof {
        lemma_assoc_find_skip(list@, key@, i as int);
    }
    None
}

/// The vocabulary a CSV source yields, or `None` when it yields an error: the
/// delimiter is not one byte, the table cannot be read, or a cap is exceeded.
pub open spec fn csv_vocabulary(
    bytes: Seq<u8>,
    delimiter: Seq<char>,
    name_col: Seq<char>,
    category_col: Seq<char>,
    map: Seq<(String, String)>,
) -> Option<Seq<(Seq<char>, Seq<char>)>> {
    if encode_utf8(delimiter).len() != 1 {
        None
    } else {
        match csv_read(bytes, encode_utf8(delimiter)[0]) {
            Err(_) => None,
            Ok(t) => {
                let pairs = csv_pairs(t.0, t.1, name_col, category_col, map);
                if caps_ok(pairs) {
                    Some(pairs)
                } else {
                    None
                }
            },
        }
    }
}

/// The `(name, category)` pairs of a read CSV table (see `csv_pairs`): each
/// record's `name_col` field, and its `category_col` field mapped through
/// `category_map`, an unmapped value kept as it is; a missing column or a
/// short row reads as the empty text. `category_map` names each raw value
/// once.
pub fn csv_records_to_pairs(
    headers: &Vec<String>,
    records: &Vec<Vec<String>>,
    name_col: &str,
    category_col: &str,
    category_map: &Vec<(String, String)>,
) -> (r: Vec<(String, String)>)
    requires
        keys_distinct(category_map@),
    ensures
        r.deep_view() == csv_pairs(headers.deep_view(), records.deep_view(), name_col@, category_col@, category_map@),
{
    let ghost hv = headers.deep_view();
    let ghost rv = records.deep_view();
    let name_idx = position_of(&headers, name_col);
    let cat_idx = position_of(&headers, category_col);
    proof {
        lemma_first_index_range(hv, name_col@);
        lemma_first_index_range(hv, category_col@);
    }
    let ghost target = csv_pairs(hv, rv, name_col@, category_col@, category_map@);
    let mut pairs: Vec<(String, String)> = Vec::new();
    let mut k: usize = 0;
    while k < records.len()
        invariant
            hv == headers.deep_view(),
            rv == records.deep_view(),
            target == csv_pairs(hv, rv, name_col@, category_col@, category_map@),
            first_index_of(hv, name_col@) == (match name_idx {
                Some(i) => Some(i as int),
                None => None,
            }),
            first_index_of(hv, category_col@) == (match cat_idx {
                Some(i) => Some(i as int),
                None => None,
            }),
            k <= records@.len(),
            target.len() == records@.len(),
            pairs@.len() == k,
            pairs.deep_view() == target.take(k as int),
        decreases records@.len() - k,
    {
        let name = field_of(&records[k], name_idx);
        let raw = field_of(&records[k], cat_idx);
        let category = match assoc_get_text(category_map, raw.as_str()) {
            Some(c) => c,
            None => raw,
        };
        proof {
            assert(records@[k as int].deep_view() == rv[k as int]);
            assert(name@ == target[k as int].0);
            assert(category@ == target[k as int].1);
        }
        let ghost before = pairs@;
        pairs.push((name, category));
        proof {
            assert forall|j: int| 0 <= j < k + 1 implies #[trigger] pairs.deep_view()[j] == target.take(k + 1)[j] by {
                if j < k {
                    assert(pairs@[j] == before[j]);
                }
            }
            assert(pairs.deep_view() =~= target.take(k + 1));
        }
        k = k + 1;
    }
    proof {
        assert(target.take(k as int) =~= target);
    }
    pairs
}

/// `e` is the refusal of a CSV source: a delimiter that is not one byte; else
/// the reader's error; else the broken cap.
pub open spec fn csv_refused(
    e: InferError,
    bytes: Seq<u8>,
    delimiter: Seq<char>,
    name_col: Seq<char>,
    category_col: Seq<char>,
    map: Seq<(String, String)>,
) -> bool {
    if encode_utf8(delimiter).len() != 1 {
        e matches InferError::TagMetadata(m) && m@ == "tag_source.delimiter must be one byte, got "@ + debug_rendering(
            delimiter,
        )
    } else {
        match csv_read(bytes, encode_utf8(delimiter)[0]) {
            Err(text) => e matches InferError::Csv(m) && m@ == text,
            Ok(t) => e matches InferError::TagMetadata(m) && caps_refusal(
                csv_pairs(t.0, t.1, name_col, category_col, map),
                "tag_source.type=csv"@,
                m@,
            ),
        }
    }
}

/// The pairs of a CSV vocabulary: each record's `name_col` field, and its
/// `category_col` field mapped through `category_map` (an unmapped value is
/// kept as it is). A missing column or a short row reads as the empty text.
/// The delimiter must be a single byte; `category_map` names each raw value
/// once.
pub fn load_csv(
    bytes: &[u8],
    delimiter: &str,
    name_col: &str,
    category_col: &str,
    category_map: &Vec<(String, String)>,
) -> (r: Result<Vec<(String, String)>, InferError>)
    requires
        keys_distinct(category_map@),
    ensures
        r is Ok <==> csv_vocabulary(bytes@, delimiter@, name_col@, category_col@, category_map@) is Some,
        r matches Ok(p) ==> Some(p.deep_view()) == csv_vocabulary(bytes@, delimiter@, name_col@, category_col@, category_map@),
        r matches Err(e) ==> csv_refused(e, bytes@, delimiter@, name_col@, category_col@, category_map@),
        encode_utf8(delimiter@).len() != 1 ==> (r matches Err(InferError::TagMetadata(m)) && m@
            == "tag_source.delimiter must be one byte, got "@ + debug_rendering(delimiter@)),
        encode_utf8(delimiter@).len() == 1 ==> match csv_read(bytes@, encode_utf8(delimiter@)[0]) {
            Err(text) => r matches Err(InferError::Csv(m)) && m@ == text,
            Ok(t) => {
                let pairs = csv_pairs(t.0, t.1, name_col@, category_col@, category_map@);
                &&& (r is Ok <==> caps_ok(pairs))
                &&& (r matches Ok(p) ==> p.deep_view() == pairs)
                &&& (r is Err ==> (r matches Err(InferError::TagMetadata(m)) && caps_refusal(
                    pairs,
                    "tag_source.type=csv"@,
                    m@,
                )))
            },
        },
{
    let db = delimiter.as_bytes();
    if db.len() != 1 {
        let d = debug_text(delimiter);
        let msg = concat(&["tag_source.delimiter must be one byte, got ", d.as_str()]);
        return Err(InferError::TagMetadata(msg));
    }
    let table = read_csv_table(bytes, db[0]);
    let (headers, records) = match table {
        Ok(t) => t,
        Err(text) => {
            return Err(InferError::Csv(text));
        },
    };
    let pairs = csv_records_to_pairs(&headers, &records, name_col, category_col, category_map);
    validate_caps(&pairs, "tag_source.type=csv")?;
    Ok(pairs)
}

/// The object path named by `container_key`: nothing when it is absent or
/// empty, else its `.`-separated segments.
pub open spec fn container_path(container_key: Option<Seq<char>>) -> Seq<Seq<char>> {
    match container_key {
        Some(k) => if k.len() == 0 {
            Seq::<Seq<char>>::empty()
        } else {
            split_on(k, '.')
        },
        None => Seq::<Seq<char>>::empty(),
    }
}

/// The entries of the `index -> tag` object and of the `tag -> category`
/// object, when both keys name objects in the container.
pub open spec fn dict_entries(
    doc: JsonValue,
    path: Seq<Seq<char>>,
    idx_key: Seq<char>,
    cat_key: Seq<char>,
) -> Option<(Seq<(String, JsonValue)>, Seq<(String, JsonValue)>)> {
    match navigate(doc, path) {
        Some(c) => match (obj_get(c, idx_key), obj_get(c, cat_key)) {
            (Some(JsonValue::Object(ei, _)), Some(JsonValue::Object(ec, _))) => Some((ei@, ec@)),
            _ => None,
        },
        None => None,
    }
}

/// The category a tag is mapped to, when the mapping holds a string for it.
pub open spec fn category_of(ec: Seq<(String, JsonValue)>, tag: Seq<char>) -> Option<Seq<char>> {
    match entry_find(ec, tag) {
        Some(JsonValue::Str(c)) => Some(c@),
        _ => None,
    }
}

/// A category is accepted when no list is given or the list names it.
pub open spec fn category_allowed(supports: Seq<Seq<char>>, c: Seq<char>) -> bool {
    supports.len() == 0 || supports.contains(c)
}

/// One `index -> tag` entry is usable: its key reads as an `i64`, its tag has
/// an accepted category, and the tag is within the length cap.
pub open spec fn dict_entry_ok(ec: Seq<(String, JsonValue)>, supports: Seq<Seq<char>>, e: (String, JsonValue)) -> bool {
    &&& parse_i64_spec(e.0@) is Some
    &&& category_of(ec, tag_text(e.1)) matches Some(c) && category_allowed(supports, c)
    &&& utf8_len(tag_text(e.1)) <= MAX_TAG_LEN
}

/// The `(tag, category)` pair of one entry.
pub open spec fn dict_pair(ec: Seq<(String, JsonValue)>, e: (String, JsonValue)) -> (Seq<char>, Seq<char>) {
    (tag_text(e.1), category_of(ec, tag_text(e.1)).unwrap())
}

/// The parsed integer of each entry's key.
pub open spec fn entry_ints(ei: Seq<(String, JsonValue)>) -> Seq<i64> {
    ei.map_values(|e: (String, JsonValue)| parse_i64_spec(e.0@).unwrap())
}

/// The key text of each entry.
pub open spec fn entry_keys(ei: Seq<(String, JsonValue)>) -> Seq<Seq<char>> {
    ei.map_values(|e: (String, JsonValue)| e.0@)
}

/// The document yields a vocabulary: no repeated keys, both objects present,
/// every entry usable, and no more than `MAX_TAGS` entries.
pub open spec fn dict_ok(
    doc: JsonValue,
    path: Seq<Seq<char>>,
    idx_key: Seq<char>,
    cat_key: Seq<char>,
    supports: Seq<Seq<char>>,
) -> bool {
    &&& keys_unique(doc)
    &&& dict_entries(doc, path, idx_key, cat_key) matches Some((ei, ec)) && {
        &&& ei.len() <= MAX_TAGS
        &&& forall|k: int| 0 <= k < ei.len() ==> dict_entry_ok(ec, supports, #[trigger] ei[k])
    }
}

/// `pairs` is the vocabulary of `ei` in ascending order of the parsed index,
/// equal indices ordered by key text.
pub open spec fn dict_vocabulary(
    ei: Seq<(String, JsonValue)>,
    ec: Seq<(String, JsonValue)>,
    pairs: Seq<(Seq<char>, Seq<char>)>,
) -> bool {
    exists|ord: Seq<usize>|
        #![trigger is_permutation(ord, ei.len())]
        {
            &&& is_permutation(ord, ei.len())
            &&& entries_sorted(entry_ints(ei), entry_keys(ei), ord)
            &&& pairs == ord.map_values(|i: usize| dict_pair(ec, ei[i as int]))
        }
}

fn names_category(supports: &Vec<String>, c: &str) -> (r: bool)
    ensures
        r == category_allowed(supports.deep_view(), c@),
{
    if supports.len() == 0 {
        return true;
    }
    let ghost sv = supports.deep_view();
    let mut i: usize = 0;
    while i < supports.len()
        invariant
            sv == supports.deep_view(),
            i <= sv.len(),
            forall|j: int| 0 <= j < i ==> sv[j] != c@,
        decreases sv.len() - i,
    {
        if text_is(supports[i].as_str(), c) {
            proof {
                assert(sv[i as int] == c@);
            }
            return true;
        }
        i = i + 1;
    }
    false
}

/// Entry `e` has no category string in `ec`, or one `supports` does not
/// accept.
pub open spec fn category_refused(ec: Seq<(String, JsonValue)>, supports: Seq<Seq<char>>, e: (String, JsonValue)) -> bool {
    match category_of(ec, tag_text(e.1)) {
        Some(c) => !category_allowed(supports, c),
        None => true,
    }
}

/// An empty `supports` list accepts every category; a non-empty one accepts
/// exactly the categories it lists, at whatever position.
pub proof fn law_category_allowed_iff_listed(supports: Seq<Seq<char>>, c: Seq<char>)
    ensures
        supports.len() == 0 ==> category_allowed(supports, c),
        forall|k: int| 0 <= k < supports.len() && #[trigger] supports[k] == c ==> category_allowed(supports, c),
        category_allowed(supports, c) && supports.len() > 0 ==> exists|k: int|
            0 <= k < supports.len() && #[trigger] supports[k] == c,
{
    assert forall|k: int| 0 <= k < supports.len() && #[trigger] supports[k] == c implies category_allowed(
        supports,
        c,
    ) by {
        assert(supports.contains(supports[k]));
    }
}

/// An entry whose tag has a category listed anywhere in `supports` is not
/// refused for its category.
pub proof fn law_listed_category_not_refused(
    ec: Seq<(String, JsonValue)>,
    supports: Seq<Seq<char>>,
    e: (String, JsonValue),
    k: int,
)
    requires
        0 <= k < supports.len(),
        category_of(ec, tag_text(e.1)) == Some(supports[k]),
    ensures
        !category_refused(ec, supports, e),
{
    law_category_allowed_iff_listed(supports, supports[k]);
}

/// The `Debug` rendering of a list of strings: `[` then each string's
/// rendering, separated by `, `, then `]`.
pub open spec fn debug_list_rendering(items: Seq<Seq<char>>) -> Seq<char> {
    "["@ + debug_joined(items) + "]"@
}

/// Each item's `Debug` rendering, separated by `, `.
pub open spec fn debug_joined(items: Seq<Seq<char>>) -> Seq<char>
    decreases items.len(),
{
    if items.len() == 0 {
        Seq::<char>::empty()
    } else if items.len() == 1 {
        debug_rendering(items[0])
    } else {
        debug_joined(items.drop_last()) + ", "@ + debug_rendering(items.last())
    }
}

/// The refusal of an entry whose category is refused.
pub open spec fn category_refusal_text(ec: Seq<(String, JsonValue)>, supports: Seq<Seq<char>>, e: (String, JsonValue)) -> Seq<char> {
    match category_of(ec, tag_text(e.1)) {
        None => "tag_to_category missing entry for tag "@ + debug_rendering(tag_text(e.1)),
        Some(c) => "tag_to_category value "@ + debug_rendering(c) + " not in supports_categories "@
            + debug_list_rendering(supports),
    }
}

/// `e` is the refusal of the `index -> tag` entries `ei`: the failing key that
/// sorts first when a key is not an integer; else, in vocabulary order, the
/// first entry whose category is refused; else the broken cap.
pub open spec fn entries_refused(
    e: InferError,
    ei: Seq<(String, JsonValue)>,
    ec: Seq<(String, JsonValue)>,
    idx_key: Seq<char>,
    supports: Seq<Seq<char>>,
) -> bool {
    if exists|k: int| 0 <= k < ei.len() && parse_i64_spec(#[trigger] ei[k].0@) is None {
        e matches InferError::TagMetadata(m) && exists|k: int|
            #![trigger ei[k]]
            0 <= k < ei.len() && parse_i64_spec(ei[k].0@) is None && (forall|x: int|
                0 <= x < ei.len() && x != k && parse_i64_spec((#[trigger] ei[x]).0@) is None ==> chars_lt(
                    ei[k].0@,
                    ei[x].0@,
                )) && m@ == debug_rendering(idx_key) + ": keys must be int-castable strings, got "@
                + debug_rendering(ei[k].0@)
    } else {
        exists|ord: Seq<usize>|
            #![trigger is_permutation(ord, ei.len())]
            is_permutation(ord, ei.len()) && entries_sorted(entry_ints(ei), entry_keys(ei), ord) && (if exists|q: int|
                0 <= q < ord.len() && category_refused(ec, supports, #[trigger] ei[ord[q] as int]) {
                e matches InferError::TagMetadata(m) && exists|q: int|
                    #![trigger ord[q]]
                    0 <= q < ord.len() && category_refused(ec, supports, ei[ord[q] as int]) && (forall|p: int|
                        0 <= p < q ==> !category_refused(ec, supports, #[trigger] ei[ord[p] as int])) && m@
                        == category_refusal_text(ec, supports, ei[ord[q] as int])
            } else {
                e matches InferError::TagMetadata(m) && caps_refusal(
                    ord.map_values(|i: usize| dict_pair(ec, ei[i as int])),
                    "tag_source.type=json_dict(mapping)"@,
                    m@,
                )
            })
    }
}

/// `e` is the refusal of a JSON dictionary source: a repeated key; else the
/// first container segment that is missing; else an `index -> tag` or
/// `tag -> category` key that does not name an object; else the refusal of
/// the entries.
pub open spec fn dict_refused(
    e: InferError,
    doc: JsonValue,
    container_key: Option<Seq<char>>,
    idx_key: Seq<char>,
    cat_key: Seq<char>,
    supports: Seq<Seq<char>>,
) -> bool {
    let path = container_path(container_key);
    if !keys_unique(doc) {
        e matches InferError::TagMetadata(m) && m@ == "metadata JSON repeats a key"@
    } else {
        match navigate(doc, path) {
            None => e matches InferError::TagMetadata(m) && exists|i: int|
                #![trigger path[i]]
                0 <= i < path.len() && navigate(doc, path.take(i)) is Some && navigate(doc, path.take(i + 1)) is None
                    && m@ == "tag_source.container_key="@ + debug_rendering(container_key.unwrap())
                    + ": missing segment "@ + debug_rendering(path[i]),
            Some(c) => match obj_get(c, idx_key) {
                Some(JsonValue::Object(ei, _)) => match obj_get(c, cat_key) {
                    Some(JsonValue::Object(ec, _)) => entries_refused(e, ei@, ec@, idx_key, supports),
                    _ => e matches InferError::TagMetadata(m) && m@ == debug_rendering(cat_key) + " must resolve to an object"@,
                },
                _ => e matches InferError::TagMetadata(m) && m@ == debug_rendering(idx_key) + " must resolve to an object"@,
            },
        }
    }
}

proof fn lemma_container_refusal(
    e: InferError,
    doc: JsonValue,
    ck: Seq<char>,
    idx_key: Seq<char>,
    cat_key: Seq<char>,
    supports: Seq<Seq<char>>,
    i: int,
)
    requires
        keys_unique(doc),
        ck.len() > 0,
        0 <= i < split_on(ck, '.').len(),
        navigate(doc, split_on(ck, '.').take(i)) is Some,
        navigate(doc, split_on(ck, '.').take(i + 1)) is None,
        e matches InferError::TagMetadata(m) && m@ == "tag_source.container_key="@ + debug_rendering(ck)
            + ": missing segment "@ + debug_rendering(split_on(ck, '.')[i]),
    ensures
        dict_refused(e, doc, Some(ck), idx_key, cat_key, supports),
{
    let path = split_on(ck, '.');
    assert(container_path(Some(ck)) == path);
    lemma_navigate_prefix_none(doc, path, i + 1);
    assert(path.take(path.len() as int) =~= path);
}

proof fn lemma_category_refusal(
    e: InferError,
    doc: JsonValue,
    ckv: Option<Seq<char>>,
    idx_key: Seq<char>,
    cat_key: Seq<char>,
    supports: Seq<Seq<char>>,
    ei: Seq<(String, JsonValue)>,
    ec: Seq<(String, JsonValue)>,
    ord: Seq<usize>,
    q: int,
)
    requires
        keys_unique(doc),
        dict_entries(doc, container_path(ckv), idx_key, cat_key) == Some((ei, ec)),
        !exists|x: int| 0 <= x < ei.len() && parse_i64_spec(#[trigger] ei[x].0@) is None,
        is_permutation(ord, ei.len()),
        entries_sorted(entry_ints(ei), entry_keys(ei), ord),
        0 <= q < ord.len(),
        category_refused(ec, supports, ei[ord[q] as int]),
        forall|p: int| 0 <= p < q ==> !category_refused(ec, supports, #[trigger] ei[ord[p] as int]),
        e matches InferError::TagMetadata(m) && m@ == category_refusal_text(ec, supports, ei[ord[q] as int]),
    ensures
        dict_refused(e, doc, ckv, idx_key, cat_key, supports),
{
    assert(ord[q] == ord[q]);
    assert(entries_refused(e, ei, ec, idx_key, supports));
}

proof fn lemma_caps_refusal(
    e: InferError,
    doc: JsonValue,
    ckv: Option<Seq<char>>,
    idx_key: Seq<char>,
    cat_key: Seq<char>,
    supports: Seq<Seq<char>>,
    ei: Seq<(String, JsonValue)>,
    ec: Seq<(String, JsonValue)>,
    ord: Seq<usize>,
)
    requires
        keys_unique(doc),
        dict_entries(doc, container_path(ckv), idx_key, cat_key) == Some((ei, ec)),
        !exists|x: int| 0 <= x < ei.len() && parse_i64_spec(#[trigger] ei[x].0@) is None,
        is_permutation(ord, ei.len()),
        entries_sorted(entry_ints(ei), entry_keys(ei), ord),
        forall|p: int| 0 <= p < ord.len() ==> !category_refused(ec, supports, #[trigger] ei[ord[p] as int]),
        e matches InferError::TagMetadata(m) && caps_refusal(
            ord.map_values(|i: usize| dict_pair(ec, ei[i as int])),
            "tag_source.type=json_dict(mapping)"@,
            m@,
        ),
    ensures
        dict_refused(e, doc, ckv, idx_key, cat_key, supports),
{
    assert(entries_refused(e, ei, ec, idx_key, supports));
}

proof fn lemma_key_refusal(
    e: InferError,
    doc: JsonValue,
    ckv: Option<Seq<char>>,
    idx_key: Seq<char>,
    cat_key: Seq<char>,
    supports: Seq<Seq<char>>,
    ei: Seq<(String, JsonValue)>,
    ec: Seq<(String, JsonValue)>,
    b: int,
)
    requires
        keys_unique(doc),
        dict_entries(doc, container_path(ckv), idx_key, cat_key) == Some((ei, ec)),
        0 <= b < ei.len(),
        parse_i64_spec(ei[b].0@) is None,
        forall|x: int|
            0 <= x < ei.len() && x != b && parse_i64_spec((#[trigger] ei[x]).0@) is None ==> chars_lt(ei[b].0@, ei[x].0@),
        e matches InferError::TagMetadata(m) && m@ == debug_rendering(idx_key) + ": keys must be int-castable strings, got "@
            + debug_rendering(ei[b].0@),
    ensures
        dict_refused(e, doc, ckv, idx_key, cat_key, supports),
{
    assert(ei[b] == ei[b]);
    assert(entries_refused(e, ei, ec, idx_key, supports));
}

/// The `Debug` rendering of a list of strings.
fn debug_list(items: &Vec<String>) -> (r: String)
    ensures
        r@ == debug_list_rendering(items.deep_view()),
{
    let ghost iv = items.deep_view();
    let mut joined = String::new();
    let mut i: usize = 0;
    while i < items.len()
        invariant
            iv == items.deep_view(),
            i <= iv.len(),
            joined@ == debug_joined(iv.take(i as int)),
        decreases iv.len() - i,
    {
        let d = debug_text(items[i].as_str());
        proof {
            assert(iv.take(i + 1).drop_last() =~= iv.take(i as int));
            assert(iv[i as int] == items@[i as int]@);
        }
        if i == 0 {
            joined = d;
        } else {
            joined.append(", ");
            joined.append(d.as_str());
        }
        i = i + 1;
    }
    proof {
        assert(iv.take(iv.len() as int) =~= iv);
    }
    concat(&["[", joined.as_str(), "]"])
}

/// The vocabulary of a JSON dictionary: follow `container_key` (dot
/// separated) into the document, take the `idx_to_tag_key` object (string
/// integer keys to tags; a tag that is not a string reads as its JSON text)
/// and the `tag_to_category_key` object (tags to category strings), and list
/// the tags in ascending order of their integer key, each with its category.
/// A non-empty `supports_categories` limits the categories accepted. A
/// document that repeats a key in any object is refused.
pub fn load_json_dict(
    doc: &JsonValue,
    container_key: Option<&str>,
    idx_to_tag_key: &str,
    tag_to_category_key: &str,
    supports_categories: &Vec<String>,
) -> (r: Result<Vec<(String, String)>, InferError>)
    ensures
        ({
            let path = container_path(match container_key {
                Some(k) => Some(k@),
                None => None,
            });
            &&& (r is Ok <==> dict_ok(*doc, path, idx_to_tag_key@, tag_to_category_key@, supports_categories.deep_view()))
            &&& (r matches Ok(p) ==> dict_entries(*doc, path, idx_to_tag_key@, tag_to_category_key@) matches Some((ei, ec))
                && dict_vocabulary(ei, ec, p.deep_view()))
            &&& (r matches Err(e) ==> dict_refused(
                e,
                *doc,
                match container_key {
                    Some(k) => Some(k@),
                    None => None,
                },
                idx_to_tag_key@,
                tag_to_category_key@,
                supports_categories.deep_view(),
            ))
        }),
{
    let ghost path = container_path(match container_key {
        Some(k) => Some(k@),
        None => None,
    });
    let ghost sv = supports_categories.deep_view();
    let ghost ckv: Option<Seq<char>> = match container_key {
        Some(k) => Some(k@),
        None => None,
    };
    if !has_unique_keys(doc) {
        return Err(InferError::TagMetadata(String::from_str("metadata JSON repeats a key")));
    }
    let mut container: &JsonValue = doc;
    match container_key {
        Some(ck) => {
            if !ck.is_empty() {
                let parts = split_chars(ck, '.');
                proof {
                    assert(ck@.len() > 0);
                    assert(path == split_on(ck@, '.'));
                    assert(path.take(0) =~= Seq::<Seq<char>>::empty());
                }
                let mut i: usize = 0;
                while i < parts.len()
                    invariant
                        path == split_on(ck@, '.'),
                        path == container_path(match container_key {
                            Some(k) => Some(k@),
                            None => None,
                        }),
                        parts@.len() == path.len(),
                        forall|j: int| 0 <= j < parts@.len() ==> (#[trigger] parts@[j])@ == path[j],
                        i <= parts@.len(),
                        navigate(*doc, path.take(i as int)) == Some(*container),
                        keys_unique(*doc),
                        ck@.len() > 0,
                        ckv == Some(ck@),
                        ckv == (match container_key {
                            Some(k) => Some(k@),
                            None => None,
                        }),
                    decreases parts@.len() - i,
                {
                    let part = string_of_chars(&parts[i]);
                    proof {
                        assert(path.take(i + 1).drop_last() =~= path.take(i as int));
                        assert(path.take(i + 1).last() == path[i as int]);
                    }
                    match get(container, part.as_str()) {
                        Some(c) => {
                            container = c;
                        },
                        None => {
                            proof {
                                assert(part@ == path[i as int]);
                                assert(navigate(*doc, path.take(i + 1)) is None);
                                lemma_navigate_prefix_none(*doc, path, i + 1);
                            }
                            let d = debug_text(ck);
                            let p = debug_text(part.as_str());
                            let msg = concat(&["tag_source.container_key=", d.as_str(), ": missing segment ", p.as_str()]);
                            proof {
                                lemma_container_refusal(
                                    InferError::TagMetadata(msg),
                                    *doc,
                                    ck@,
                                    idx_to_tag_key@,
                                    tag_to_category_key@,
                                    sv,
                                    i as int,
                                );
                            }
                            return Err(InferError::TagMetadata(msg));
                        },
                    }
                    i = i + 1;
                }
                proof {
                    assert(path.take(i as int) =~= path);
                }
            } else {
                proof {
                    assert(path.len() == 0);
                }
            }
        },
        None => {},
    }
    proof {
        assert(navigate(*doc, path) == Some(*container));
        lemma_navigate_keys_unique(*doc, path);
    }
    let idx_obj = get(container, idx_to_tag_key);
    let cat_obj = get(container, tag_to_category_key);
    let (ei, ei_text) = match idx_obj {
        Some(JsonValue::Object(es, t)) => (es, t),
        _ => {
            let d = debug_text(idx_to_tag_key);
            let msg = concat(&[d.as_str(), " must resolve to an object"]);
            return Err(InferError::TagMetadata(msg));
        },
    };
    let cat_ref: &JsonValue = match cat_obj {
        Some(c) => c,
        None => {
            let d = debug_text(tag_to_category_key);
            let msg = concat(&[d.as_str(), " must resolve to an object"]);
            return Err(InferError::TagMetadata(msg));
        },
    };
    let ec = match cat_ref {
        JsonValue::Object(es, _) => es,
        _ => {
            let d = debug_text(tag_to_category_key);
            let msg = concat(&[d.as_str(), " must resolve to an object"]);
            return Err(InferError::TagMetadata(msg));
        },
    };
    let ghost eiv = ei@;
    let ghost ecv = ec@;
    proof {
        assert(dict_entries(*doc, path, idx_to_tag_key@, tag_to_category_key@) == Some((eiv, ecv)));
        if container is Object {
            crate::json::lemma_entry_find_member(container->Object_0@, idx_to_tag_key@);
        }
        assert(keys_unique(JsonValue::Object(*ei, *ei_text)));
    }
    let n = ei.len();
    proof {
        assert forall|a: int, b: int| 0 <= a < b < n implies (#[trigger] eiv[a]).0@ != (#[trigger] eiv[b]).0@ by {
            assert(keys_unique(JsonValue::Object(*ei, *ei_text)));
        }
    }
    // Every key must read as an integer; the refusal names the failing key
    // that sorts first.
    let mut ints: Vec<i64> = Vec::new();
    let mut keys: Vec<String> = Vec::new();
    let mut bad: Option<usize> = None;
    let mut j: usize = 0;
    while j < n
        invariant
            n == eiv.len(),
            eiv == ei@,
            j <= n,
            ints@.len() == j,
            keys@.len() == j,
            forall|a: int, b: int| 0 <= a < b < n ==> (#[trigger] eiv[a]).0@ != (#[trigger] eiv[b]).0@,
            forall|k: int| 0 <= k < j ==> (#[trigger] keys@[k])@ == eiv[k].0@,
            bad is None ==> forall|k: int| 0 <= k < j ==> parse_i64_spec((#[trigger] eiv[k]).0@) == Some(ints@[k]),
            bad matches Some(b) ==> b < j && parse_i64_spec(eiv[b as int].0@) is None && forall|x: int|
                0 <= x < j && x != b && parse_i64_spec((#[trigger] eiv[x]).0@) is None ==> chars_lt(
                    eiv[b as int].0@,
                    eiv[x].0@,
                ),
            keys_unique(*doc),
            dict_entries(*doc, path, idx_to_tag_key@, tag_to_category_key@) == Some((eiv, ecv)),
            path == container_path(ckv),
            ckv == (match container_key {
                Some(k) => Some(k@),
                None => None,
            }),
        decreases n - j,
    {
        let key = &ei[j].0;
        match parse_i64(key.as_str()) {
            Some(v) => {
                ints.push(v);
            },
            None => {
                ints.push(0);
                match bad {
                    None => {
                        bad = Some(j);
                    },
                    Some(b) => {
                        proof {
                            lemma_chars_lt_total(eiv[b as int].0@, eiv[j as int].0@);
                        }
                        if text_lt(key.as_str(), ei[b].0.as_str()) {
                            proof {
                                assert forall|x: int|
                                    0 <= x < j + 1 && x != j && parse_i64_spec((#[trigger] eiv[x]).0@)
                                        is None implies chars_lt(eiv[j as int].0@, eiv[x].0@) by {
                                    if x != b {
                                        lemma_chars_lt_transitive(eiv[j as int].0@, eiv[b as int].0@, eiv[x].0@);
                                    }
                                }
                            }
                            bad = Some(j);
                        }
                    },
                }
            },
        }
        keys.push(key.clone());
        j = j + 1;
    }
    if let Some(b) = bad {
        let d = debug_text(idx_to_tag_key);
        let k = debug_text(ei[b].0.as_str());
        let msg = concat(&[d.as_str(), ": keys must be int-castable strings, got ", k.as_str()]);
        proof {
            lemma_key_refusal(
                InferError::TagMetadata(msg),
                *doc,
                ckv,
                idx_to_tag_key@,
                tag_to_category_key@,
                sv,
                eiv,
                ecv,
                b as int,
            );
        }
        return Err(InferError::TagMetadata(msg));
    }
    proof {
        assert(!exists|k: int| 0 <= k < eiv.len() && parse_i64_spec(#[trigger] eiv[k].0@) is None);
        assert forall|a: int, b: int| 0 <= a < b < keys@.len() implies (#[trigger] keys@[a])@ != (#[trigger] keys@[b])@ by {
            assert(eiv[a].0@ != eiv[b].0@);
        }
        assert(ints@ =~= entry_ints(eiv));
        assert(keys.deep_view() =~= entry_keys(eiv));
    }
    let order = order_entries(&ints, &keys);
    // In that order, every tag needs an accepted category.
    let mut pairs: Vec<(String, String)> = Vec::new();
    let mut k: usize = 0;
    while k < n
        invariant
            n == eiv.len(),
            eiv == ei@,
            ecv == ec@,
            *cat_ref == JsonValue::Object(*ec, (*cat_ref)->Object_1),
            sv == supports_categories.deep_view(),
            order@.len() == n,
            is_permutation(order@, n as nat),
            k <= n,
            pairs@.len() == k,
            forall|m: int| 0 <= m < k ==> (#[trigger] pairs.deep_view()[m]) == dict_pair(ecv, eiv[order@[m] as int]),
            forall|m: int| 0 <= m < k ==> !category_refused(ecv, sv, #[trigger] eiv[order@[m] as int]),
            keys_unique(*doc),
            dict_entries(*doc, path, idx_to_tag_key@, tag_to_category_key@) == Some((eiv, ecv)),
            path == container_path(ckv),
            ckv == (match container_key {
                Some(k) => Some(k@),
                None => None,
            }),
            !exists|x: int| 0 <= x < eiv.len() && parse_i64_spec(#[trigger] eiv[x].0@) is None,
            entries_sorted(entry_ints(eiv), entry_keys(eiv), order@),
            forall|x: int| 0 <= x < n ==> parse_i64_spec((#[trigger] eiv[x]).0@) == Some(ints@[x]),
        decreases n - k,
    {
        let i = order[k];
        let tag = tag_name_of(&ei[i].1);
        let category = match get(cat_ref, tag.as_str()) {
            Some(JsonValue::Str(c)) => c.clone(),
            _ => {
                let t = debug_text(tag.as_str());
                let msg = concat(&["tag_to_category missing entry for tag ", t.as_str()]);
                proof {
                    assert(category_refused(ecv, sv, eiv[order@[k as int] as int]));
                    assert(msg@ == category_refusal_text(ecv, sv, eiv[order@[k as int] as int]));
                    lemma_category_refusal(
                        InferError::TagMetadata(msg),
                        *doc,
                        ckv,
                        idx_to_tag_key@,
                        tag_to_category_key@,
                        sv,
                        eiv,
                        ecv,
                        order@,
                        k as int,
                    );
                }
                return Err(InferError::TagMetadata(msg));
            },
        };
        if !names_category(supports_categories, category.as_str()) {
            let c = debug_text(category.as_str());
            let l = debug_list(supports_categories);
            let msg = concat(&["tag_to_category value ", c.as_str(), " not in supports_categories ", l.as_str()]);
            proof {
                assert(category_refused(ecv, sv, eiv[order@[k as int] as int]));
                assert(msg@ == category_refusal_text(ecv, sv, eiv[order@[k as int] as int]));
                lemma_category_refusal(
                    InferError::TagMetadata(msg),
                    *doc,
                    ckv,
                    idx_to_tag_key@,
                    tag_to_category_key@,
                    sv,
                    eiv,
                    ecv,
                    order@,
                    k as int,
                );
            }
            return Err(InferError::TagMetadata(msg));
        }
        let ghost before = pairs@;
        let ghost before_dv = pairs.deep_view();
        proof {
            assert(category_of(ecv, tag_text(eiv[i as int].1)) == Some(category@));
        }
        pairs.push((tag, category));
        proof {
            assert(pairs.deep_view()[k as int] == dict_pair(ecv, eiv[order@[k as int] as int]));
            assert forall|m: int| 0 <= m < k + 1 implies (#[trigger] pairs.deep_view()[m]) == dict_pair(ecv, eiv[order@[m] as int]) by {
                if m < k {
                    assert(pairs@[m] == before[m]);
                    assert(before_dv[m] == dict_pair(ecv, eiv[order@[m] as int]));
                    assert(pairs.deep_view()[m] == before_dv[m]);
                }
            }
        }
        k = k + 1;
    }
    let ghost target = order@.map_values(|i: usize| dict_pair(ecv, eiv[i as int]));
    proof {
        assert(pairs.deep_view() =~= target);
        lemma_permutation_onto(order@, n as nat);
    }
    match validate_caps(&pairs, "tag_source.type=json_dict(mapping)") {
        Ok(()) => {
            proof {
                assert forall|m: int| 0 <= m < n implies dict_entry_ok(ecv, sv, #[trigger] eiv[m]) by {
                    assert(reaches(order@, m));
                    let q = choose|q: int| 0 <= q < order@.len() && order@[q] == m;
                    assert(pairs.deep_view()[q] == dict_pair(ecv, eiv[m]));
                    assert(utf8_len(pairs.deep_view()[q].0) <= MAX_TAG_LEN);
                    assert(!category_refused(ecv, sv, eiv[order@[q] as int]));
                    assert(parse_i64_spec(eiv[m].0@) == Some(ints@[m]));
                }
                assert(dict_vocabulary(eiv, ecv, pairs.deep_view())) by {
                    assert(is_permutation(order@, eiv.len()));
                }
            }
            Ok(pairs)
        },
        Err(e) => {
            proof {
                if dict_ok(*doc, path, idx_to_tag_key@, tag_to_category_key@, sv) {
                    assert forall|q: int| 0 <= q < pairs.deep_view().len() implies utf8_len((#[trigger] pairs.deep_view()[q]).0) <= MAX_TAG_LEN by {
                        assert(dict_entry_ok(ecv, sv, eiv[order@[q] as int]));
                    }
                }
                lemma_caps_refusal(e, *doc, ckv, idx_to_tag_key@, tag_to_category_key@, sv, eiv, ecv, order@);
            }
            Err(e)
        },
    }
}

/// A tag source file as the caller read it: the bytes of a CSV table, or the
/// parsed JSON document.
#[derive(Debug, PartialEq, Eq)]
pub enum TagDocument {
    Csv(Vec<u8>),
    Json(JsonValue),
}

/// The pairs after the categories mode: `all_general` relabels every tag
/// `general`; any other mode keeps the source's categories.
pub open spec fn apply_categories_mode(pairs: Seq<(Seq<char>, Seq<char>)>, mode: Seq<char>) -> Seq<(Seq<char>, Seq<char>)> {
    if mode == "all_general"@ {
        pairs.map_values(|p: (Seq<char>, Seq<char>)| (p.0, "general"@))
    } else {
        pairs
    }
}

/// `idx` lists, in increasing order, exactly the positions of `tags` whose
/// category is `rating`.
pub open spec fn rating_positions(tags: Seq<(Seq<char>, Seq<char>)>, idx: Seq<usize>) -> bool {
    &&& forall|i: int, j: int| 0 <= i < j < idx.len() ==> #[trigger] idx[i] < #[trigger] idx[j]
    &&& forall|i: int| 0 <= i < idx.len() ==> (#[trigger] idx[i]) < tags.len() && tags[idx[i] as int].1 == "rating"@
    &&& forall|k: int| 0 <= k < tags.len() && (#[trigger] tags[k]).1 == "rating"@ ==> reaches(idx, k)
}

/// In `all_general` mode every tag is labelled `general`, so no position is
/// recorded as a rating.
pub proof fn law_all_general_has_no_ratings(
    pairs: Seq<(Seq<char>, Seq<char>)>,
    tags: Seq<(Seq<char>, Seq<char>)>,
    rating_indices: Seq<usize>,
)
    requires
        tags == apply_categories_mode(pairs, "all_general"@),
        rating_positions(tags, rating_indices),
    ensures
        tags.len() == pairs.len(),
        forall|i: int| 0 <= i < tags.len() ==> (#[trigger] tags[i]).1 == "general"@,
        rating_indices.len() == 0,
{
    reveal_strlit("general");
    reveal_strlit("rating");
    if rating_indices.len() > 0 {
        let i = rating_indices[0] as int;
        assert(tags[i].1 == "general"@);
        assert("general"@[0] != "rating"@[0]);
    }
}

/// A JSON dictionary yields no vocabulary when any object repeats a key, a
/// container segment is missing, or, among the `index -> tag` entries, a key
/// is not an integer, a tag has no category string, a category is outside a
/// non-empty `supports`, a tag is longer than `MAX_TAG_LEN` bytes, or there
/// are more than `MAX_TAGS` entries.
pub proof fn law_json_dict_refusals(
    doc: JsonValue,
    path: Seq<Seq<char>>,
    idx_key: Seq<char>,
    cat_key: Seq<char>,
    supports: Seq<Seq<char>>,
)
    ensures
        !keys_unique(doc) ==> !dict_ok(doc, path, idx_key, cat_key, supports),
        navigate(doc, path) is None ==> !dict_ok(doc, path, idx_key, cat_key, supports),
        dict_entries(doc, path, idx_key, cat_key) matches Some((ei, ec)) ==> {
            &&& (ei.len() > MAX_TAGS ==> !dict_ok(doc, path, idx_key, cat_key, supports))
            &&& forall|k: int|
                0 <= k < ei.len() ==> {
                    &&& (parse_i64_spec((#[trigger] ei[k]).0@) is None ==> !dict_ok(doc, path, idx_key, cat_key, supports))
                    &&& (category_of(ec, tag_text(ei[k].1)) is None ==> !dict_ok(doc, path, idx_key, cat_key, supports))
                    &&& (category_of(ec, tag_text(ei[k].1)) matches Some(c) && !category_allowed(supports, c)
                        ==> !dict_ok(doc, path, idx_key, cat_key, supports))
                    &&& (utf8_len(tag_text(ei[k].1)) > MAX_TAG_LEN ==> !dict_ok(doc, path, idx_key, cat_key, supports))
                }
        },
{
}

/// Whatever vocabulary a source yields stays within the caps (at most
/// `MAX_TAGS` tags, none longer than `MAX_TAG_LEN` bytes), and applying a
/// categories mode keeps that and the tag names.
pub proof fn law_loaded_vocabulary_within_caps(
    bytes: Seq<u8>,
    delimiter: Seq<char>,
    name_col: Seq<char>,
    category_col: Seq<char>,
    map: Seq<(String, String)>,
    doc: JsonValue,
    path: Seq<Seq<char>>,
    idx_key: Seq<char>,
    cat_key: Seq<char>,
    supports: Seq<Seq<char>>,
    pairs: Seq<(Seq<char>, Seq<char>)>,
    mode: Seq<char>,
)
    ensures
        csv_vocabulary(bytes, delimiter, name_col, category_col, map) matches Some(p) ==> caps_ok(p),
        dict_ok(doc, path, idx_key, cat_key, supports) ==> (dict_entries(doc, path, idx_key, cat_key) matches Some(
            (ei, ec),
        ) && (dict_vocabulary(ei, ec, pairs) ==> caps_ok(pairs))),
        caps_ok(pairs) ==> caps_ok(apply_categories_mode(pairs, mode)),
        apply_categories_mode(pairs, mode).len() == pairs.len(),
        forall|i: int| 0 <= i < pairs.len() ==> (#[trigger] apply_categories_mode(pairs, mode)[i]).0 == pairs[i].0,
{
    if dict_ok(doc, path, idx_key, cat_key, supports) {
        let (ei, ec) = dict_entries(doc, path, idx_key, cat_key).unwrap();
        if dict_vocabulary(ei, ec, pairs) {
            let ord = choose|ord: Seq<usize>|
                #![trigger is_permutation(ord, ei.len())]
                {
                    &&& is_permutation(ord, ei.len())
                    &&& entries_sorted(entry_ints(ei), entry_keys(ei), ord)
                    &&& pairs == ord.map_values(|i: usize| dict_pair(ec, ei[i as int]))
                };
            assert forall|q: int| 0 <= q < pairs.len() implies utf8_len((#[trigger] pairs[q]).0) <= MAX_TAG_LEN by {
                assert(pairs[q] == dict_pair(ec, ei[ord[q] as int]));
                assert(dict_entry_ok(ec, supports, ei[ord[q] as int]));
            }
        }
    }
    let applied = apply_categories_mode(pairs, mode);
    assert forall|i: int| 0 <= i < pairs.len() implies (#[trigger] applied[i]).0 == pairs[i].0 by {}
    if caps_ok(pairs) {
        assert forall|i: int| 0 <= i < applied.len() implies utf8_len((#[trigger] applied[i]).0) <= MAX_TAG_LEN by {
            assert(applied[i].0 == pairs[i].0);
        }
    }
}

/// Apply the categories mode and record the `rating` positions.
pub fn finish_tags(pairs: Vec<(String, String)>, categories_mode: &str) -> (r: TagMeta)
    ensures
        r.tags.deep_view() == apply_categories_mode(pairs.deep_view(), categories_mode@),
        rating_positions(r.tags.deep_view(), r.rating_indices@),
{
    let ghost target = apply_categories_mode(pairs.deep_view(), categories_mode@);
    let mut tags = pairs;
    proof {
        reveal_strlit("all_general");
        reveal_strlit("general");
    }
    if text_is(categories_mode, "all_general") {
        let ghost src = tags.deep_view();
        let mut out: Vec<(String, String)> = Vec::new();
        let mut i: usize = 0;
        while i < tags.len()
            invariant
                src == tags.deep_view(),
                i <= tags@.len(),
                out@.len() == i,
                forall|m: int| 0 <= m < i ==> (#[trigger] out.deep_view()[m]) == (src[m].0, "general"@),
            decreases tags@.len() - i,
        {
            let ghost before_dv = out.deep_view();
            let t = tags[i].0.clone();
            proof {
                assert(t@ == src[i as int].0);
            }
            out.push((t, String::from_str("general")));
            proof {
                assert forall|m: int| 0 <= m < i + 1 implies (#[trigger] out.deep_view()[m]) == (src[m].0, "general"@) by {
                    if m < i {
                        assert(out.deep_view()[m] == before_dv[m]);
                    }
                }
            }
            i = i + 1;
        }
        proof {
            assert(out.deep_view() =~= target);
        }
        tags = out;
    }
    let ghost tv = tags.deep_view();
    proof {
        assert(tv =~= target);
    }
    let mut rating: Vec<usize> = Vec::new();
    let mut k: usize = 0;
    while k < tags.len()
        invariant
            tv == tags.deep_view(),
            k <= tv.len(),
            forall|i: int, j: int| 0 <= i < j < rating@.len() ==> #[trigger] rating@[i] < #[trigger] rating@[j],
            forall|i: int| 0 <= i < rating@.len() ==> (#[trigger] rating@[i]) < k && tv[rating@[i] as int].1 == "rating"@,
            forall|m: int| 0 <= m < k && (#[trigger] tv[m]).1 == "rating"@ ==> reaches(rating@, m),
        decreases tv.len() - k,
    {
        proof {
            reveal_strlit("rating");
        }
        if text_is(tags[k].1.as_str(), "rating") {
            proof {
                assert(tv[k as int].1 == "rating"@);
            }
            let ghost before = rating@;
            rating.push(k);
            proof {
                assert forall|m: int| 0 <= m < k + 1 && (#[trigger] tv[m]).1 == "rating"@ implies reaches(rating@, m) by {
                    if m < k {
                        let q = choose|q: int| 0 <= q < before.len() && before[q] == m;
                        assert(rating@[q] == m);
                    } else {
                        assert(rating@[before.len() as int] == m);
                    }
                }
            }
        } else {
            proof {
                assert(tv[k as int].1 != "rating"@);
            }
        }
        k = k + 1;
    }
    TagMeta { tags, rating_indices: rating }
}

/// What loading a CSV vocabulary `v` (see `csv_vocabulary`) gives.
pub open spec fn csv_outcome(r: Result<TagMeta, InferError>, v: Option<Seq<(Seq<char>, Seq<char>)>>, mode: Seq<char>) -> bool {
    &&& (r is Ok <==> v is Some)
    &&& (r matches Ok(m) ==> m.tags.deep_view() == apply_categories_mode(v.unwrap(), mode))
    &&& (r matches Err(e) ==> e is TagMetadata || e is Csv)
}

/// What loading the JSON dictionary of `doc` gives.
pub open spec fn json_outcome(
    r: Result<TagMeta, InferError>,
    doc: JsonValue,
    path: Seq<Seq<char>>,
    idx_key: Seq<char>,
    cat_key: Seq<char>,
    supports: Seq<Seq<char>>,
    mode: Seq<char>,
) -> bool {
    &&& (r is Ok <==> dict_ok(doc, path, idx_key, cat_key, supports))
    &&& (r matches Ok(m) ==> dict_entries(doc, path, idx_key, cat_key) matches Some((ei, ec)) && exists|
        p: Seq<(Seq<char>, Seq<char>)>,
    | #[trigger] dict_vocabulary(ei, ec, p) && m.tags.deep_view() == apply_categories_mode(p, mode))
    &&& (r matches Err(e) ==> e is TagMetadata)
}

/// Load the ordered vocabulary that `spec` describes from `doc`, then apply
/// the categories mode and record the `rating` positions. A document of the
/// other kind than the spec names is refused. A CSV source's
/// `category_map` names each raw value once.
pub fn load_tags(
    doc: &TagDocument,
    spec: &TagSourceSpec,
    categories_mode: &str,
    supports_categories: &Vec<String>,
) -> (r: Result<TagMeta, InferError>)
    requires
        spec.map_keys_distinct(),
    ensures
        r matches Ok(m) ==> rating_positions(m.tags.deep_view(), m.rating_indices@),
        spec is Csv && doc is Csv ==> csv_outcome(
            r,
            csv_vocabulary(doc->Csv_0@, spec->Csv_delimiter@, spec->Csv_name_col@, spec->Csv_category_col@, spec->Csv_category_map@),
            categories_mode@,
        ),
        spec is JsonDict && doc is Json ==> json_outcome(
            r,
            doc->Json_0,
            container_path(match spec->JsonDict_container_key {
                Some(k) => Some(k@),
                None => None,
            }),
            spec->JsonDict_idx_to_tag_key@,
            spec->JsonDict_tag_to_category_key@,
            supports_categories.deep_view(),
            categories_mode@,
        ),
        spec is Csv && doc is Csv ==> (r matches Err(e) ==> csv_refused(
            e,
            doc->Csv_0@,
            spec->Csv_delimiter@,
            spec->Csv_name_col@,
            spec->Csv_category_col@,
            spec->Csv_category_map@,
        )),
        spec is JsonDict && doc is Json ==> (r matches Err(e) ==> dict_refused(
            e,
            doc->Json_0,
            match spec->JsonDict_container_key {
                Some(k) => Some(k@),
                None => None,
            },
            spec->JsonDict_idx_to_tag_key@,
            spec->JsonDict_tag_to_category_key@,
            supports_categories.deep_view(),
        )),
        !(spec is Csv && doc is Csv) && !(spec is JsonDict && doc is Json) ==> (r matches Err(InferError::TagMetadata(m))
            && m@ == "tag source document does not match tag_source.type"@),
{
    match (spec, doc) {
        (TagSourceSpec::Csv { delimiter, name_col, category_col, category_map, .. }, TagDocument::Csv(bytes)) => {
            match load_csv(bytes.as_slice(), delimiter.as_str(), name_col.as_str(), category_col.as_str(), category_map) {
                Ok(pairs) => Ok(finish_tags(pairs, categories_mode)),
                Err(e) => Err(e),
            }
        },
        (TagSourceSpec::JsonDict { container_key, idx_to_tag_key, tag_to_category_key, .. }, TagDocument::Json(v)) => {
            let ck: Option<&str> = match container_key {
                Some(k) => Some(k.as_str()),
                None => None,
            };
            let pairs = match load_json_dict(v, ck, idx_to_tag_key.as_str(), tag_to_category_key.as_str(), supports_categories) {
                Ok(p) => p,
                Err(e) => {
                    return Err(e);
                },
            };
            let ghost pv = pairs.deep_view();
            let m = finish_tags(pairs, categories_mode);
            proof {
                let path = container_path(match container_key {
                    Some(k) => Some(k@),
                    None => None,
                });
                let (ei, ec) = dict_entries(*v, path, idx_to_tag_key@, tag_to_category_key@).unwrap();
                assert(dict_vocabulary(ei, ec, pv));
            }
            Ok(m)
        },
        _ => {
            Err(InferError::TagMetadata(String::from_str("tag source document does not match tag_source.type")))
        },
    }
}

/// The category codes of the WD `selected_tags.csv` layout, used when no
/// profile supplies a map.
pub fn default_category_map() -> (r: Vec<(i64, String)>)
    ensures
        r@.len() == 6,
        r@[0].0 == 0 && r@[0].1@ == "general"@,
        r@[1].0 == 1 && r@[1].1@ == "artist"@,
        r@[2].0 == 3 && r@[2].1@ == "copyright"@,
        r@[3].0 == 4 && r@[3].1@ == "character"@,
        r@[4].0 == 5 && r@[4].1@ == "meta"@,
        r@[5].0 == 9 && r@[5].1@ == "rating"@,
{
    vec![
        (0, String::from_str("general")),
        (1, String::from_str("artist")),
        (3, String::from_str("copyright")),
        (4, String::from_str("character")),
        (5, String::from_str("meta")),
        (9, String::from_str("rating")),
    ]
}

/// The category name of the first entry of `map` with this code.
pub open spec fn code_category(map: Seq<(i64, String)>, code: i64) -> Option<Seq<char>>
    decreases map.len(),
{
    if map.len() == 0 {
        None
    } else if map[0].0 == code {
        Some(map[0].1@)
    } else {
        code_category(map.drop_first(), code)
    }
}

proof fn lemma_code_category_skip(map: Seq<(i64, String)>, code: i64, i: int)
    requires
        0 <= i <= map.len(),
        forall|j: int| 0 <= j < i ==> (#[trigger] map[j]).0 != code,
    ensures
        code_category(map, code) == code_category(map.skip(i), code),
    decreases i,
{
    if i > 0 {
        lemma_code_category_skip(map.drop_first(), code, i - 1);
        assert(map.drop_first().skip(i - 1) =~= map.skip(i));
    } else {
        assert(map.skip(0) =~= map);
    }
}

fn category_for_code(map: &Vec<(i64, String)>, code: i64) -> (r: String)
    ensures
        r@ == (match code_category(map@, code) {
            Some(c) => c,
            None => "general"@,
        }),
{
    let mut i: usize = 0;
    while i < map.len()
        invariant
            i <= map@.len(),
            forall|j: int| 0 <= j < i ==> (#[trigger] map@[j]).0 != code,
        decreases map@.len() - i,
    {
        if map[i].0 == code {
            proof {
                lemma_code_category_skip(map@, code, i as int);
            }
            return map[i].1.clone();
        }
        i = i + 1;
    }
    proof {
        lemma_code_category_skip(map@, code, i as int);
        reveal_strlit("general");
    }
    String::from_str("general")
}

/// The vocabulary of a WD table read as `(name, category code)` rows: each
/// code mapped through `category_map`, an unknown code reading as `general`,
/// with the `rating` positions recorded.
pub fn tag_meta_from_rows(rows: &Vec<(String, i64)>, category_map: &Vec<(i64, String)>) -> (r: TagMeta)
    ensures
        r.tags@.len() == rows@.len(),
        forall|i: int| 0 <= i < rows@.len() ==> (#[trigger] r.tags@[i]).0@ == rows@[i].0@ && r.tags@[i].1@ == (match code_category(
            category_map@,
            rows@[i].1,
        ) {
            Some(c) => c,
            None => "general"@,
        }),
        rating_positions(r.tags.deep_view(), r.rating_indices@),
{
    let mut pairs: Vec<(String, String)> = Vec::new();
    let mut i: usize = 0;
    while i < rows.len()
        invariant
            i <= rows@.len(),
            pairs@.len() == i,
            forall|k: int| 0 <= k < i ==> (#[trigger] pairs@[k]).0@ == rows@[k].0@ && pairs@[k].1@ == (match code_category(
                category_map@,
                rows@[k].1,
            ) {
                Some(c) => c,
                None => "general"@,
            }),
        decreases rows@.len() - i,
    {
        let c = category_for_code(category_map, rows[i].1);
        pairs.push((rows[i].0.clone(), c));
        i = i + 1;
    }
    let ghost before = pairs@;
    let ghost bdv = pairs.deep_view();
    let meta = finish_tags(pairs, "from_tag_source");
    proof {
        reveal_strlit("from_tag_source");
        reveal_strlit("all_general");
        assert("from_tag_source"@ != "all_general"@) by {
            assert("from_tag_source"@[0] != "all_general"@[0]);
        }
        assert(meta.tags.deep_view() == bdv);
        assert(meta.tags@.len() == meta.tags.deep_view().len());
        assert forall|k: int| 0 <= k < rows@.len() implies (#[trigger] meta.tags@[k]).0@ == rows@[k].0@ && meta.tags@[k].1@ == (match code_category(
            category_map@,
            rows@[k].1,
        ) {
            Some(c) => c,
            None => "general"@,
        }) by {
            assert(meta.tags.deep_view()[k] == bdv[k]);
            assert(bdv[k] == before[k].deep_view());
        }
    }
    meta
}

} // verus!
