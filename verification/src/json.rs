//! A JSON document as the tag metadata reader sees it: objects keep their
//! entries in document order, repeated keys included, so that a repeated key
//! can be rejected rather than silently overwritten.
use vstd::prelude::*;
use crate::text::text_is;

verus! {

/// A parsed JSON value. Numbers, arrays and objects also carry their compact
/// JSON rendering, which is what a non-string tag name reads as.
#[derive(Debug, PartialEq, Eq)]
pub enum JsonValue {
    Null,
    Bool(bool),
    /// The number's compact JSON rendering.
    Number(String),
    Str(String),
    /// The items, then the compact rendering of the whole array.
    Array(Vec<JsonValue>, String),
    /// The entries in document order, then the compact rendering of the object.
    Object(Vec<(String, JsonValue)>, String),
}

/// No object anywhere in `v` repeats a key.
pub open spec fn keys_unique(v: JsonValue) -> bool
    decreases v,
{
    match v {
        JsonValue::Array(items, _) => forall|i: int|
            0 <= i < items@.len() ==> keys_unique(#[trigger] items@[i]),
        JsonValue::Object(entries, _) => {
            &&& forall|i: int, j: int|
                0 <= i < j < entries@.len() ==> (#[trigger] entries@[i]).0@ != (#[trigger] entries@[j]).0@
            &&& forall|i: int| 0 <= i < entries@.len() ==> keys_unique((#[trigger] entries@[i]).1)
        },
        _ => true,
    }
}

/// The value of the first entry keyed `key`.
pub open spec fn entry_find(entries: Seq<(String, JsonValue)>, key: Seq<char>) -> Option<JsonValue>
    decreases entries.len(),
{
    if entries.len() == 0 {
        None
    } else if entries[0].0@ == key {
        Some(entries[0].1)
    } else {
        entry_find(entries.drop_first(), key)
    }
}

/// `v[key]` when `v` is an object holding `key`; `None` otherwise.
pub open spec fn obj_get(v: JsonValue, key: Seq<char>) -> Option<JsonValue> {
    match v {
        JsonValue::Object(entries, _) => entry_find(entries@, key),
        _ => None,
    }
}

/// Follow `path` through nested objects from `v`.
pub open spec fn navigate(v: JsonValue, path: Seq<Seq<char>>) -> Option<JsonValue>
    decreases path.len(),
{
    if path.len() == 0 {
        Some(v)
    } else {
        match navigate(v, path.drop_last()) {
            Some(inner) => obj_get(inner, path.last()),
            None => None,
        }
    }
}

/// What a JSON value reads as when used as a tag name: the string itself, or
/// the compact JSON rendering of anything else.
pub open spec fn tag_text(v: JsonValue) -> Seq<char> {
    match v {
        JsonValue::Null => "null"@,
        JsonValue::Bool(b) => if b { "true"@ } else { "false"@ },
        JsonValue::Number(t) => t@,
        JsonValue::Str(s) => s@,
        JsonValue::Array(_, t) => t@,
        JsonValue::Object(_, t) => t@,
    }
}

/// Whether `entries` repeats a key, checked pairwise.
fn entries_keys_distinct(entries: &Vec<(String, JsonValue)>) -> (r: bool)
    ensures
        r == forall|i: int, j: int|
            0 <= i < j < entries@.len() ==> (#[trigger] entries@[i]).0@ != (#[trigger] entries@[j]).0@,
{
    let n = entries.len();
    let mut i: usize = 0;
    while i < n
        invariant
            n == entries@.len(),
            i <= n,
            forall|a: int, b: int|
                0 <= a < b < n && a < i ==> (#[trigger] entries@[a]).0@ != (#[trigger] entries@[b]).0@,
        decreases n - i,
    {
        let mut j: usize = i + 1;
        while j < n
            invariant
                n == entries@.len(),
                i < n,
                i + 1 <= j <= n,
                forall|a: int, b: int|
                    0 <= a < b < n && a < i ==> (#[trigger] entries@[a]).0@ != (#[trigger] entries@[b]).0@,
                forall|b: int| i < b < j ==> entries@[i as int].0@ != (#[trigger] entries@[b]).0@,
            decreases n - j,
        {
            if text_is(entries[i].0.as_str(), entries[j].0.as_str()) {
                proof {
                    assert(entries@[i as int].0@ == entries@[j as int].0@);
                }
                return false;
            }
            j = j + 1;
        }
        i = i + 1;
    }
    true
}

/// Whether no object anywhere in `v` repeats a key.
pub fn has_unique_keys(v: &JsonValue) -> (r: bool)
    ensures
        r == keys_unique(*v),
    decreases v,
{
    match v {
        JsonValue::Array(items, t) => {
            let mut i: usize = 0;
            while i < items.len()
                invariant
                    *v == JsonValue::Array(*items, *t),
                    i <= items@.len(),
                    forall|k: int| 0 <= k < i ==> keys_unique(#[trigger] items@[k]),
                decreases items@.len() - i,
            {
                proof {
                    assert(decreases_to!(*v => (*v)->Array_0));
                    assert(decreases_to!((*v)->Array_0 => (*v)->Array_0@));
                    assert(decreases_to!((*v)->Array_0@ => (*v)->Array_0@[i as int]));
                }
                if !has_unique_keys(&items[i]) {
                    proof {
                        assert(!keys_unique(items@[i as int]));
                        assert(keys_unique(*v) ==> keys_unique((*v)->Array_0@[i as int]));
                    }
                    return false;
                }
                i = i + 1;
            }
            true
        },
        JsonValue::Object(entries, t) => {
            if !entries_keys_distinct(entries) {
                return false;
            }
            let mut i: usize = 0;
            while i < entries.len()
                invariant
                    *v == JsonValue::Object(*entries, *t),
                    forall|a: int, b: int|
                        0 <= a < b < entries@.len() ==> (#[trigger] entries@[a]).0@ != (#[trigger] entries@[b]).0@,
                    i <= entries@.len(),
                    forall|k: int| 0 <= k < i ==> keys_unique((#[trigger] entries@[k]).1),
                decreases entries@.len() - i,
            {
                proof {
                    assert(decreases_to!(*v => (*v)->Object_0));
                    assert(decreases_to!((*v)->Object_0 => (*v)->Object_0@));
                    assert(decreases_to!((*v)->Object_0@ => (*v)->Object_0@[i as int]));
                    assert(decreases_to!((*v)->Object_0@[i as int] => (*v)->Object_0@[i as int].1));
                }
                if !has_unique_keys(&entries[i].1) {
                    proof {
                        assert(!keys_unique(entries@[i as int].1));
                        assert(keys_unique(*v) ==> keys_unique((*v)->Object_0@[i as int].1));
                    }
                    return false;
                }
                i = i + 1;
            }
            true
        },
        _ => true,
    }
}

proof fn lemma_entry_find_skip(entries: Seq<(String, JsonValue)>, key: Seq<char>, i: int)
    requires
        0 <= i <= entries.len(),
        forall|j: int| 0 <= j < i ==> (#[trigger] entries[j]).0@ != key,
    ensures
        entry_find(entries, key) == entry_find(entries.skip(i), key),
    decreases i,
{
    if i > 0 {
        assert(entries[0].0@ != key);
        lemma_entry_find_skip(entries.drop_first(), key, i - 1);
        assert(entries.drop_first().skip(i - 1) =~= entries.skip(i));
    } else {
        assert(entries.skip(0) =~= entries);
    }
}

/// The first entry keyed `key` is one of the entries.
pub proof fn lemma_entry_find_member(entries: Seq<(String, JsonValue)>, key: Seq<char>)
    ensures
        entry_find(entries, key) matches Some(w) ==> exists|i: int|
            0 <= i < entries.len() && (#[trigger] entries[i]).1 == w,
    decreases entries.len(),
{
    if entries.len() > 0 && entries[0].0@ != key {
        lemma_entry_find_member(entries.drop_first(), key);
        if let Some(w) = entry_find(entries, key) {
            let i = choose|i: int| 0 <= i < entries.drop_first().len() && (#[trigger] entries.drop_first()[i]).1 == w;
            assert(entries[i + 1].1 == w);
        }
    }
}

/// What `navigate` reaches inside a document without repeated keys has none
/// either.
pub proof fn lemma_navigate_keys_unique(v: JsonValue, path: Seq<Seq<char>>)
    requires
        keys_unique(v),
    ensures
        navigate(v, path) matches Some(w) ==> keys_unique(w),
    decreases path.len(),
{
    if path.len() > 0 {
        lemma_navigate_keys_unique(v, path.drop_last());
        if let Some(inner) = navigate(v, path.drop_last()) {
            if let JsonValue::Object(entries, _) = inner {
                lemma_entry_find_member(entries@, path.last());
            }
        }
    }
}

/// Once a prefix of the path leads nowhere, the whole path does.
pub proof fn lemma_navigate_prefix_none(v: JsonValue, path: Seq<Seq<char>>, k: int)
    requires
        0 <= k <= path.len(),
        navigate(v, path.take(k)) is None,
    ensures
        navigate(v, path) is None,
    decreases path.len() - k,
{
    if k < path.len() {
        assert(path.take(k + 1).drop_last() =~= path.take(k));
        lemma_navigate_prefix_none(v, path, k + 1);
    } else {
        assert(path.take(k) =~= path);
    }
}

/// `v[key]` when `v` is an object holding `key`.
pub fn get<'a>(v: &'a JsonValue, key: &str) -> (r: Option<&'a JsonValue>)
    ensures
        r matches Some(x) ==> obj_get(*v, key@) == Some(*x),
        r is None ==> obj_get(*v, key@) is None,
{
    match v {
        JsonValue::Object(entries, t) => {
            let mut i: usize = 0;
            while i < entries.len()
                invariant
                    *v == JsonValue::Object(*entries, *t),
                    i <= entries@.len(),
                    forall|j: int| 0 <= j < i ==> (#[trigger] entries@[j]).0@ != key@,
                decreases entries@.len() - i,
            {
                if text_is(entries[i].0.as_str(), key) {
                    proof {
                        lemma_entry_find_skip(entries@, key@, i as int);
                        assert(entries@.skip(i as int)[0] == entries@[i as int]);
                    }
                    return Some(&entries[i].1);
                }
                i = i + 1;
            }
            proof {
                lemma_entry_find_skip(entries@, key@, i as int);
            }
            None
        },
        _ => None,
    }
}

/// What a JSON value reads as when used as a tag name.
pub fn tag_name_of(v: &JsonValue) -> (r: String)
    ensures
        r@ == tag_text(*v),
{
    match v {
        JsonValue::Null => String::from_str("null"),
        JsonValue::Bool(b) => if *b {
            String::from_str("true")
        } else {
            String::from_str("false")
        },
        JsonValue::Number(t) => t.clone(),
        JsonValue::Str(s) => s.clone(),
        JsonValue::Array(_, t) => t.clone(),
        JsonValue::Object(_, t) => t.clone(),
    }
}

} // verus!
