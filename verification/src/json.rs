//! A plain-value model of the JSON documents kept in the settings tables,
//! with the object operations the settings logic needs.

use vstd::prelude::*;
use crate::text::string_views;

verus! {

/// A JSON number: integers exactly, any other number by its text.
#[derive(Debug, Clone, PartialEq)]
pub enum JsonNumber {
    PosInt(u64),
    NegInt(i64),
    Other(String),
}

/// A JSON value.
#[derive(Debug, PartialEq)]
pub enum JsonValue {
    Null,
    Bool(bool),
    Number(JsonNumber),
    Text(String),
    Array(Vec<JsonValue>),
    Object(Vec<(String, JsonValue)>),
}

/// The value of `key` in an object's entries (the last entry wins).
pub open spec fn object_get(entries: Seq<(String, JsonValue)>, key: Seq<char>) -> Option<JsonValue>
    decreases entries.len(),
{
    if entries.len() == 0 {
        None
    } else if entries.last().0@ == key {
        Some(entries.last().1)
    } else {
        object_get(entries.drop_last(), key)
    }
}

/// Looks up `key`.
pub fn json_object_get<'a>(entries: &'a [(String, JsonValue)], key: &str) -> (r: Option<&'a JsonValue>)
    ensures
        match r {
            Some(v) => object_get(entries@, key@) == Some(*v),
            None => object_get(entries@, key@) is None,
        },
{
    let k = String::from_str(key);
    let mut i = entries.len();
    assert(entries@.subrange(0, i as int) =~= entries@);
    while i > 0
        invariant
            i <= entries.len(),
            k@ == key@,
            object_get(entries@, key@) == object_get(entries@.subrange(0, i as int), key@),
        decreases i,
    {
        let ghost pre = entries@.subrange(0, i as int);
        assert(pre.drop_last() =~= entries@.subrange(0, i - 1));
        if entries[i - 1].0 == k {
            return Some(&entries[i - 1].1);
        }
        i = i - 1;
    }
    None
}


/// The entries without any entry for `key`, others in order.
pub open spec fn object_without(entries: Seq<(String, JsonValue)>, key: Seq<char>) -> Seq<(String, JsonValue)> {
    entries.filter(|e: (String, JsonValue)| e.0@ != key)
}

proof fn lemma_object_without_get(entries: Seq<(String, JsonValue)>, key: Seq<char>, k: Seq<char>)
    ensures
        object_get(object_without(entries, key), k) == if k == key {
            None
        } else {
            object_get(entries, k)
        },
    decreases entries.len(),
{
    reveal(Seq::filter);
    if entries.len() > 0 {
        lemma_object_without_get(entries.drop_last(), key, k);
        let w = object_without(entries, key);
        let w0 = object_without(entries.drop_last(), key);
        if entries.last().0@ != key {
            assert(w == w0.push(entries.last()));
            assert(w.drop_last() =~= w0);
        } else {
            assert(w == w0);
        }
    }
}

/// Removes every entry for `key`; returns the removed value (the one a
/// lookup would have found).
pub fn json_object_remove(entries: &mut Vec<(String, JsonValue)>, key: &str) -> (r: Option<JsonValue>)
    ensures
        final(entries)@ == object_without(old(entries)@, key@),
        r == object_get(old(entries)@, key@),
        forall|k: Seq<char>| #[trigger] object_get(final(entries)@, k) == if k == key@ {
            None
        } else {
            object_get(old(entries)@, k)
        },
{
    let ghost orig = entries@;
    let k = String::from_str(key);
    let ghost pred = |e: (String, JsonValue)| e.0@ != key@;
    let mut kept: Vec<(String, JsonValue)> = Vec::new();
    let mut found: Option<JsonValue> = None;
    let mut rest: Vec<(String, JsonValue)> = Vec::new();
    let orig_len = entries.len();
    std::mem::swap(&mut rest, entries);
    assert(rest@ == orig);
    let mut n: usize = 0;
    assert(orig.take(0).filter(pred) =~= Seq::<(String, JsonValue)>::empty());
    assert(orig.subrange(0, orig.len() as int) =~= orig);
    while rest.len() > 0
        invariant
            n + rest@.len() == orig.len(),
            orig.len() == orig_len,
            rest@ == orig.subrange(n as int, orig.len() as int),
            kept@ == orig.take(n as int).filter(pred),
            found == object_get(orig.take(n as int), key@),
            k@ == key@,
            pred == (|e: (String, JsonValue)| e.0@ != key@),
        decreases rest.len(),
    {
        let e = rest.remove(0);
        assert(e == orig[n as int]);
        assert(orig.take(n + 1) =~= orig.take(n as int).push(e));
        proof {
            orig.take(n as int).lemma_filter_push(e, pred);
        }
        assert(orig.take(n + 1).drop_last() =~= orig.take(n as int));
        if e.0 == k {
            found = Some(e.1);
        } else {
            kept.push(e);
        }
        n = n + 1;
        assert(rest@ =~= orig.subrange(n as int, orig.len() as int));
    }
    assert(orig.take(n as int) =~= orig);
    *entries = kept;
    proof {
        assert forall|kk: Seq<char>| #[trigger] object_get(entries@, kk) == if kk == key@ {
            None
        } else {
            object_get(orig, kk)
        } by {
            lemma_object_without_get(orig, key@, kk);
        }
    }
    found
}

/// Sets `key` to `value`, replacing any previous entry.
pub fn json_object_insert(entries: &mut Vec<(String, JsonValue)>, key: &str, value: JsonValue)
    ensures
        forall|k: Seq<char>| #[trigger] object_get(final(entries)@, k) == if k == key@ {
            Some(value)
        } else {
            object_get(old(entries)@, k)
        },
{
    let _ = json_object_remove(entries, key);
    let ghost mid = entries@;
    let name = String::from_str(key);
    let ghost pair = (name, value);
    entries.push((name, value));
    assert(entries@ =~= mid.push(pair));
    assert(entries@.drop_last() =~= mid);
    proof {
        assert forall|k: Seq<char>| #[trigger] object_get(entries@, k) == if k == key@ {
            Some(value)
        } else {
            object_get(old(entries)@, k)
        } by {
            assert(pair.0@ == key@);
            assert(entries@.last() == pair);
            assert(object_get(mid, k) == if k == key@ {
                None
            } else {
                object_get(old(entries)@, k)
            });
        }
    }
}

/// The strings of an array whose items are all strings.
pub open spec fn text_items(items: Seq<JsonValue>) -> Option<Seq<Seq<char>>>
    decreases items.len(),
{
    if items.len() == 0 {
        Some(Seq::empty())
    } else {
        match (text_items(items.drop_last()), items.last()) {
            (Some(p), JsonValue::Text(t)) => Some(p.push(t@)),
            _ => None,
        }
    }
}

/// `v` is an array holding exactly the strings `ps`.
pub open spec fn is_text_array(v: JsonValue, ps: Seq<Seq<char>>) -> bool {
    v matches JsonValue::Array(items) && text_items(items@) == Some(ps)
}

/// The strings of an array value whose items are all strings; `None` for any
/// other value.
pub fn json_text_items(items: &[JsonValue]) -> (r: Option<Vec<String>>)
    ensures
        match r {
            Some(v) => text_items(items@) == Some(string_views(v@)),
            None => text_items(items@) is None,
        },
{
    let mut out: Vec<String> = Vec::new();
    let mut i: usize = 0;
    assert(items@.take(0) =~= Seq::<JsonValue>::empty());
    assert(string_views(out@) =~= Seq::<Seq<char>>::empty());
    while i < items.len()
        invariant
            i <= items.len(),
            text_items(items@.take(i as int)) == Some(string_views(out@)),
        decreases items.len() - i,
    {
        assert(items@.take(i + 1).drop_last() =~= items@.take(i as int));
        match &items[i] {
            JsonValue::Text(t) => {
                let ghost prev = string_views(out@);
                out.push(t.clone());
                assert(string_views(out@) =~= prev.push(t@));
            },
            _ => {
                proof {
                    lemma_text_items_prefix(items@, i as int + 1);
                }
                return None;
            },
        }
        i = i + 1;
    }
    assert(items@.take(items.len() as int) =~= items@);
    Some(out)
}

/// An array that does not start with an all-string prefix is not all strings.
proof fn lemma_text_items_prefix(items: Seq<JsonValue>, n: int)
    requires
        0 <= n <= items.len(),
        text_items(items.take(n)) is None,
    ensures
        text_items(items) is None,
    decreases items.len() - n,
{
    if n < items.len() {
        assert(items.take(n + 1).drop_last() =~= items.take(n));
        lemma_text_items_prefix(items, n + 1);
    } else {
        assert(items.take(n) =~= items);
    }
}

/// An array of the given strings.
pub fn json_text_array(v: Vec<String>) -> (r: JsonValue)
    ensures
        is_text_array(r, string_views(v@)),
{
    let mut items: Vec<JsonValue> = Vec::new();
    let mut rest = v;
    let ghost orig = rest@;
    let n = rest.len();
    let mut i: usize = 0;
    assert(items@ =~= Seq::<JsonValue>::empty());
    assert(orig.subrange(0, orig.len() as int) =~= orig);
    while rest.len() > 0
        invariant
            i + rest@.len() == orig.len(),
            orig.len() == n,
            rest@ == orig.subrange(i as int, orig.len() as int),
            items@.len() == i,
            text_items(items@) == Some(string_views(orig.take(i as int))),
        decreases rest.len(),
    {
        let t = rest.remove(0);
        assert(t == orig[i as int]);
        let ghost prev = items@;
        items.push(JsonValue::Text(t));
        assert(items@.drop_last() =~= prev);
        assert(string_views(orig.take(i + 1)) =~= string_views(orig.take(i as int)).push(t@));
        i = i + 1;
        assert(rest@ =~= orig.subrange(i as int, orig.len() as int));
    }
    assert(orig.take(i as int) =~= orig);
    JsonValue::Array(items)
}

/// The boolean a value holds, if it is one.
pub open spec fn bool_of(v: Option<JsonValue>) -> Option<bool> {
    match v {
        Some(JsonValue::Bool(b)) => Some(b),
        _ => None,
    }
}

/// The non-negative integer a value holds, if it is one (`as_u64`).
pub open spec fn u64_of(v: Option<JsonValue>) -> Option<u64> {
    match v {
        Some(JsonValue::Number(JsonNumber::PosInt(n))) => Some(n),
        _ => None,
    }
}

/// The string a value holds, if it is one.
pub open spec fn text_of(v: Option<JsonValue>) -> Option<Seq<char>> {
    match v {
        Some(JsonValue::Text(t)) => Some(t@),
        _ => None,
    }
}

/// The entries of an object value, if it is one.
pub open spec fn entries_of(v: Option<JsonValue>) -> Option<Seq<(String, JsonValue)>> {
    match v {
        Some(JsonValue::Object(e)) => Some(e@),
        _ => None,
    }
}

/// The boolean a value holds, if it is one.
pub fn json_as_bool(v: Option<&JsonValue>) -> (r: Option<bool>)
    ensures
        r == bool_of(match v {
            Some(x) => Some(*x),
            None => None,
        }),
{
    match v {
        Some(JsonValue::Bool(b)) => Some(*b),
        _ => None,
    }
}

/// The non-negative integer a value holds, if it is one.
pub fn json_as_u64(v: Option<&JsonValue>) -> (r: Option<u64>)
    ensures
        r == u64_of(match v {
            Some(x) => Some(*x),
            None => None,
        }),
{
    match v {
        Some(JsonValue::Number(JsonNumber::PosInt(n))) => Some(*n),
        _ => None,
    }
}

/// The string a value holds, if it is one.
pub fn json_as_str(v: Option<&JsonValue>) -> (r: Option<&str>)
    ensures
        match r {
            Some(t) => text_of(match v {
                Some(x) => Some(*x),
                None => None,
            }) == Some(t@),
            None => text_of(match v {
                Some(x) => Some(*x),
                None => None,
            }) is None,
        },
{
    match v {
        Some(JsonValue::Text(t)) => Some(t.as_str()),
        _ => None,
    }
}

/// Whether a value counts as set: any value but `null` and the empty string.
pub open spec fn is_nonempty_value(v: JsonValue) -> bool {
    match v {
        JsonValue::Text(t) => t@.len() > 0,
        JsonValue::Null => false,
        _ => true,
    }
}

/// Whether a value counts as set: any value but `null` and the empty string.
pub fn nonempty_json_value(v: &JsonValue) -> (r: bool)
    ensures
        r == is_nonempty_value(*v),
{
    match v {
        JsonValue::Text(t) => t.as_str().unicode_len() > 0,
        JsonValue::Null => false,
        _ => true,
    }
}

} // verus!
