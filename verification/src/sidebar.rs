//! The sidebar layout document: where a duplicated connection is placed.
//!
//! The layout's `order` is a list of entries; an entry is either
//! `{"type": "connection", "id": ..}` or a group, which holds either a
//! `children` list of entries or a flat `connectionIds` list of ids.

use vstd::prelude::*;
use crate::json::{JsonValue, object_get, text_of, json_object_get, json_as_str};

verus! {

/// Index of the entry that a lookup of `key` finds (the last one), or -1.
pub open spec fn key_slot(e: Seq<(String, JsonValue)>, key: Seq<char>) -> int
    decreases e.len(),
{
    if e.len() == 0 {
        -1
    } else if e.last().0@ == key {
        e.len() - 1
    } else {
        key_slot(e.drop_last(), key)
    }
}

/// `key_slot` is -1 or an index, and the lookup finds the value there.
pub proof fn lemma_key_slot(e: Seq<(String, JsonValue)>, key: Seq<char>)
    ensures
        -1 <= key_slot(e, key) < e.len(),
        object_get(e, key) == if key_slot(e, key) >= 0 {
            Some(e[key_slot(e, key)].1)
        } else {
            None::<JsonValue>
        },
        key_slot(e, key) >= 0 ==> e[key_slot(e, key)].0@ == key,
    decreases e.len(),
{
    if e.len() > 0 && e.last().0@ != key {
        lemma_key_slot(e.drop_last(), key);
    }
}

/// The index that a lookup of `key` finds.
pub fn key_slot_of(e: &[(String, JsonValue)], key: &str) -> (r: Option<usize>)
    ensures
        match r {
            Some(i) => i as int == key_slot(e@, key@),
            None => key_slot(e@, key@) == -1,
        },
{
    let k = String::from_str(key);
    let mut i = e.len();
    assert(e@.subrange(0, i as int) =~= e@);
    while i > 0
        invariant
            i <= e.len(),
            k@ == key@,
            key_slot(e@, key@) == key_slot(e@.subrange(0, i as int), key@),
        decreases i,
    {
        assert(e@.subrange(0, i as int).drop_last() =~= e@.subrange(0, i - 1));
        if e[i - 1].0 == k {
            return Some(i - 1);
        }
        i = i - 1;
    }
    None
}

/// The string under `key` of an object value.
pub open spec fn field_text(v: JsonValue, key: Seq<char>) -> Option<Seq<char>> {
    match v {
        JsonValue::Object(f) => text_of(object_get(f@, key)),
        _ => None,
    }
}

/// Whether a value is a string equal to `s`.
pub open spec fn is_text(v: JsonValue, s: Seq<char>) -> bool {
    v matches JsonValue::Text(t) && t@ == s
}

/// A connection entry for `id`.
pub open spec fn names_connection(v: JsonValue, id: Seq<char>) -> bool {
    field_text(v, "type"@) == Some("connection"@) && field_text(v, "id"@) == Some(id)
}

/// A group entry.
pub open spec fn is_group(v: JsonValue) -> bool {
    field_text(v, "type"@) == Some("group"@)
}

/// The index of the field that holds a group's `children` list, or -1.
pub open spec fn children_slot(v: JsonValue) -> int {
    match v {
        JsonValue::Object(f) => {
            let c = key_slot(f@, "children"@);
            if is_group(v) && 0 <= c < f@.len() && f@[c].1 is Array {
                c
            } else {
                -1
            }
        },
        _ => -1,
    }
}

/// The index of the field that holds the `connectionIds` list of a group
/// without a `children` list, or -1.
pub open spec fn ids_slot(v: JsonValue) -> int {
    match v {
        JsonValue::Object(f) => {
            let d = key_slot(f@, "connectionIds"@);
            if is_group(v) && children_slot(v) < 0 && 0 <= d < f@.len() && f@[d].1 is Array {
                d
            } else {
                -1
            }
        },
        _ => -1,
    }
}

/// The first index at or after `j` of a string equal to `s`, or -1.
pub open spec fn first_text_from(items: Seq<JsonValue>, j: int, s: Seq<char>) -> int
    decreases items.len() - j,
{
    if j < 0 || j >= items.len() {
        -1
    } else if is_text(items[j], s) {
        j
    } else {
        first_text_from(items, j + 1, s)
    }
}

/// `first_text_from` is -1 or an index at or after `j`.
pub proof fn lemma_first_text_from(items: Seq<JsonValue>, j: int, s: Seq<char>)
    ensures
        first_text_from(items, j, s) == -1 || (j <= first_text_from(items, j, s) < items.len()
            && is_text(items[first_text_from(items, j, s)], s)),
    decreases items.len() - j,
{
    if 0 <= j < items.len() && !is_text(items[j], s) {
        lemma_first_text_from(items, j + 1, s);
    }
}

/// The position of `src` in a group's `connectionIds` list, or -1.
pub open spec fn ids_position(v: JsonValue, src: Seq<char>) -> int {
    let d = ids_slot(v);
    match v {
        JsonValue::Object(f) => if 0 <= d < f@.len() {
            match f@[d].1 {
                JsonValue::Array(ids) => first_text_from(ids@, 0, src),
                _ => -1,
            }
        } else {
            -1
        },
        _ => -1,
    }
}

/// Whether an entry takes the copy of `src` inside it: a group whose
/// `children` hold the source somewhere, or whose `connectionIds` list it.
pub open spec fn takes_copy(v: JsonValue, src: Seq<char>) -> bool
    decreases v, 0int,
{
    match v {
        JsonValue::Object(f) => {
            let c = children_slot(v);
            if 0 <= c < f@.len() {
                match f@[c].1 {
                    JsonValue::Array(kids) => has_copy_target(kids@, 0, src),
                    _ => false,
                }
            } else {
                ids_position(v, src) >= 0
            }
        },
        _ => false,
    }
}

/// Whether some entry at or after `i` is the source connection or a group
/// that takes the copy.
pub open spec fn has_copy_target(entries: Seq<JsonValue>, i: int, src: Seq<char>) -> bool
    decreases entries, entries.len() - i,
{
    if 0 <= i < entries.len() {
        names_connection(entries[i], src) || takes_copy(entries[i], src) || has_copy_target(
            entries,
            i + 1,
            src,
        )
    } else {
        false
    }
}

/// The entry that `{"type": "connection", "id": copy}` stands for.
pub open spec fn is_copy_entry(v: JsonValue, copy: Seq<char>) -> bool {
    &&& v matches JsonValue::Object(f) && f@.len() == 2
    &&& names_connection(v, copy)
}

/// `nv` is the entry `v` that takes the copy, with the copy placed inside:
/// in its `children`, or in its `connectionIds` right after the source; all
/// other fields as they were.
pub open spec fn copy_placed_in(v: JsonValue, nv: JsonValue, src: Seq<char>, copy: Seq<char>) -> bool
    decreases v, 0int,
{
    match (v, nv) {
        (JsonValue::Object(f), JsonValue::Object(nf)) => {
            let c = children_slot(v);
            let d = ids_slot(v);
            if 0 <= c < f@.len() {
                &&& nf@.len() == f@.len()
                &&& nf@ == f@.update(c, (f@[c].0, nf@[c].1))
                &&& match (f@[c].1, nf@[c].1) {
                    (JsonValue::Array(kids), JsonValue::Array(nkids)) => copy_placed(
                        kids@,
                        nkids@,
                        0,
                        src,
                        copy,
                    ),
                    _ => false,
                }
            } else if 0 <= d < f@.len() {
                let p = ids_position(v, src);
                &&& nf@.len() == f@.len()
                &&& nf@ == f@.update(d, (f@[d].0, nf@[d].1))
                &&& match (f@[d].1, nf@[d].1) {
                    (JsonValue::Array(ids), JsonValue::Array(nids)) => {
                        &&& 0 <= p < ids@.len()
                        &&& nids@.len() == ids@.len() + 1
                        &&& nids@ == ids@.insert(p + 1, nids@[p + 1])
                        &&& is_text(nids@[p + 1], copy)
                    },
                    _ => false,
                }
            } else {
                false
            }
        },
        _ => false,
    }
}

/// `new` is `old` with the copy placed next to the first entry, at or after
/// `i`, that is the source connection or a group that takes the copy.
pub open spec fn copy_placed(
    old: Seq<JsonValue>,
    new: Seq<JsonValue>,
    i: int,
    src: Seq<char>,
    copy: Seq<char>,
) -> bool
    decreases old, old.len() - i,
{
    if 0 <= i < old.len() {
        if names_connection(old[i], src) {
            &&& new.len() == old.len() + 1
            &&& new == old.insert(i + 1, new[i + 1])
            &&& is_copy_entry(new[i + 1], copy)
        } else if takes_copy(old[i], src) {
            &&& new.len() == old.len()
            &&& new == old.update(i, new[i])
            &&& copy_placed_in(old[i], new[i], src, copy)
        } else {
            copy_placed(old, new, i + 1, src, copy)
        }
    } else {
        false
    }
}

/// Whether the string under `key` of `v` equals `want`.
fn field_text_is(v: &JsonValue, key: &str, want: &str) -> (r: bool)
    ensures
        r == (field_text(*v, key@) == Some(want@)),
{
    match v {
        JsonValue::Object(f) => match json_as_str(json_object_get(f.as_slice(), key)) {
            Some(t) => crate::text::str_eq(t, want),
            None => false,
        },
        _ => false,
    }
}

/// Whether `v` is a connection entry for `id`.
fn names_connection_of(v: &JsonValue, id: &str) -> (r: bool)
    ensures
        r == names_connection(*v, id@),
{
    field_text_is(v, "type", "connection") && field_text_is(v, "id", id)
}

/// The index of a group's `children` list field.
fn children_slot_of(v: &JsonValue) -> (r: Option<usize>)
    ensures
        match r {
            Some(c) => c as int == children_slot(*v),
            None => children_slot(*v) == -1,
        },
{
    match v {
        JsonValue::Object(f) => {
            if !field_text_is(v, "type", "group") {
                return None;
            }
            let slot = key_slot_of(f.as_slice(), "children");
            proof {
                lemma_key_slot(f@, "children"@);
            }
            match slot {
                Some(c) => match &f[c].1 {
                    JsonValue::Array(_) => Some(c),
                    _ => None,
                },
                None => None,
            }
        },
        _ => None,
    }
}

/// The first index of a string equal to `s`.
fn first_text_index(items: &[JsonValue], s: &str) -> (r: Option<usize>)
    ensures
        match r {
            Some(j) => j as int == first_text_from(items@, 0, s@),
            None => first_text_from(items@, 0, s@) == -1,
        },
{
    let mut j: usize = 0;
    while j < items.len()
        invariant
            j <= items.len(),
            first_text_from(items@, 0, s@) == first_text_from(items@, j as int, s@),
        decreases items.len() - j,
    {
        let hit = match &items[j] {
            JsonValue::Text(t) => crate::text::str_eq(t.as_str(), s),
            _ => false,
        };
        if hit {
            return Some(j);
        }
        j = j + 1;
    }
    None
}

/// The `connectionIds` field of a group without `children`, and the
/// position of `src` in it.
fn ids_position_of(v: &JsonValue, src: &str) -> (r: Option<(usize, usize)>)
    ensures
        match r {
            Some((d, p)) => d as int == ids_slot(*v) && p as int == ids_position(*v, src@) && p >= 0,
            None => ids_position(*v, src@) < 0,
        },
{
    match v {
        JsonValue::Object(f) => {
            if !field_text_is(v, "type", "group") || children_slot_of(v).is_some() {
                return None;
            }
            let slot = key_slot_of(f.as_slice(), "connectionIds");
            proof {
                lemma_key_slot(f@, "connectionIds"@);
            }
            match slot {
                Some(d) => match &f[d].1 {
                    JsonValue::Array(ids) => match first_text_index(ids.as_slice(), src) {
                        Some(p) => Some((d, p)),
                        None => None,
                    },
                    _ => None,
                },
                None => None,
            }
        },
        _ => None,
    }
}

/// Whether an entry takes the copy of `src` inside it.
fn takes_copy_of(v: &JsonValue, src: &str) -> (r: bool)
    ensures
        r == takes_copy(*v, src@),
    decreases *v, 0int,
{
    match v {
        JsonValue::Object(f) => match children_slot_of(v) {
            Some(c) => match &f[c].1 {
                JsonValue::Array(kids) => has_copy_target_in(kids.as_slice(), src),
                _ => false,
            },
            None => ids_position_of(v, src).is_some(),
        },
        _ => false,
    }
}

/// Whether some entry is the source connection or a group that takes the
/// copy.
fn has_copy_target_in(entries: &[JsonValue], src: &str) -> (r: bool)
    ensures
        r == has_copy_target(entries@, 0, src@),
    decreases entries@, 1int,
{
    let mut i: usize = 0;
    while i < entries.len()
        invariant
            i <= entries.len(),
            has_copy_target(entries@, 0, src@) == has_copy_target(entries@, i as int, src@),
        decreases entries.len() - i,
    {
        if names_connection_of(&entries[i], src) || takes_copy_of(&entries[i], src) {
            return true;
        }
        i = i + 1;
    }
    false
}

/// The entry `{"type": "connection", "id": copy}`.
fn copy_entry(copy: &str) -> (r: JsonValue)
    ensures
        is_copy_entry(r, copy@),
{
    let mut f: Vec<(String, JsonValue)> = Vec::new();
    let kind = (String::from_str("type"), JsonValue::Text(String::from_str("connection")));
    f.push(kind);
    let id = (String::from_str("id"), JsonValue::Text(String::from_str(copy)));
    f.push(id);
    proof {
        reveal_strlit("type");
        reveal_strlit("id");
        assert("type"@.len() == 4);
        assert("id"@.len() == 2);
        assert(f@.drop_last() =~= seq![kind]);
        assert(seq![kind].drop_last() =~= Seq::<(String, JsonValue)>::empty());
        assert(kind.0@ != "id"@);
        assert(object_get(f@, "id"@) == Some(id.1));
        assert(object_get(seq![kind], "type"@) == Some(kind.1));
        assert(object_get(f@, "type"@) == Some(kind.1));
    }
    JsonValue::Object(f)
}

/// Places the copy inside an entry that takes it.
fn with_copy_in(v: JsonValue, src: &str, copy: &str) -> (nv: JsonValue)
    requires
        takes_copy(v, src@),
    ensures
        copy_placed_in(v, nv, src@, copy@),
    decreases v, 0int,
{
    let children = children_slot_of(&v);
    let ids = ids_position_of(&v, src);
    match v {
        JsonValue::Object(mut f) => {
            let ghost f0 = f@;
            match children {
                Some(c) => {
                    let (k, kv) = f.remove(c);
                    match kv {
                        JsonValue::Array(kids) => {
                            let nk = with_copy(kids, src, copy);
                            f.insert(c, (k, JsonValue::Array(nk)));
                            assert(f@ =~= f0.update(c as int, (f0[c as int].0, f@[c as int].1)));
                            JsonValue::Object(f)
                        },
                        _ => {
                            assert(false);
                            JsonValue::Null
                        },
                    }
                },
                None => match ids {
                    Some((d, p)) => {
                        let (k, kv) = f.remove(d);
                        match kv {
                            JsonValue::Array(mut list) => {
                                let ghost l0 = list@;
                                let len = list.len();
                                proof {
                                    lemma_first_text_from(l0, 0, src@);
                                }
                                assert(p < len);
                                list.insert(p + 1, JsonValue::Text(String::from_str(copy)));
                                f.insert(d, (k, JsonValue::Array(list)));
                                assert(f@ =~= f0.update(d as int, (f0[d as int].0, f@[d as int].1)));
                                JsonValue::Object(f)
                            },
                            _ => {
                                assert(false);
                                JsonValue::Null
                            },
                        }
                    },
                    None => {
                        assert(false);
                        JsonValue::Null
                    },
                },
            }
        },
        _ => {
            assert(false);
            JsonValue::Null
        },
    }
}

/// Places the copy next to the first entry that is the source connection or
/// a group that takes it.
#[verifier::loop_isolation(false)]
fn with_copy(entries: Vec<JsonValue>, src: &str, copy: &str) -> (r: Vec<JsonValue>)
    requires
        has_copy_target(entries@, 0, src@),
    ensures
        copy_placed(entries@, r@, 0, src@, copy@),
    decreases entries@, 1int,
{
    let ghost orig = entries@;
    let mut entries = entries;
    let mut i: usize = 0;
    while i < entries.len()
        invariant
            entries@ == orig,
            i <= orig.len(),
            has_copy_target(orig, i as int, src@),
            forall|new: Seq<JsonValue>|
                copy_placed(orig, new, i as int, src@, copy@) ==> #[trigger] copy_placed(
                    orig,
                    new,
                    0,
                    src@,
                    copy@,
                ),
        decreases orig.len() - i,
    {
        if names_connection_of(&entries[i], src) {
            entries.insert(i + 1, copy_entry(copy));
            assert(entries@ =~= orig.insert(i + 1, entries@[i + 1]));
            assert(copy_placed(orig, entries@, i as int, src@, copy@));
            assert(copy_placed(orig, entries@, 0, src@, copy@));
            return entries;
        }
        if takes_copy_of(&entries[i], src) {
            let item = entries.remove(i);
            proof {
                assert(decreases_to!(orig => orig[i as int]));
            }
            let placed = with_copy_in(item, src, copy);
            entries.insert(i, placed);
            assert(entries@ =~= orig.update(i as int, entries@[i as int]));
            assert(copy_placed(orig, entries@, i as int, src@, copy@));
            assert(copy_placed(orig, entries@, 0, src@, copy@));
            return entries;
        }
        assert forall|new: Seq<JsonValue>|
            copy_placed(orig, new, i + 1, src@, copy@) implies #[trigger] copy_placed(
                orig,
                new,
                0,
                src@,
                copy@,
            ) by {
            assert(copy_placed(orig, new, i as int, src@, copy@));
        }
        i = i + 1;
    }
    entries
}

/// Puts the duplicate `copy_id` of a connection next to its source
/// `source_id`: right after the source's entry, in the first place (in
/// order, descending into groups) where the source is listed. Returns whether
/// the source was found; the list is unchanged where it was not.
pub fn insert_connection_copy_next_to_source(
    entries: &mut Vec<JsonValue>,
    source_id: &str,
    copy_id: &str,
) -> (r: bool)
    ensures
        r == has_copy_target(old(entries)@, 0, source_id@),
        r ==> copy_placed(old(entries)@, final(entries)@, 0, source_id@, copy_id@),
        !r ==> final(entries)@ == old(entries)@,
{
    if has_copy_target_in(entries.as_slice(), source_id) {
        let mut owned: Vec<JsonValue> = Vec::new();
        std::mem::swap(&mut owned, entries);
        let placed = with_copy(owned, source_id, copy_id);
        *entries = placed;
        true
    } else {
        false
    }
}

/// The index of the layout's `order` list field, or -1.
pub open spec fn order_slot(layout: JsonValue) -> int {
    match layout {
        JsonValue::Object(f) => {
            let o = key_slot(f@, "order"@);
            if 0 <= o < f@.len() && f@[o].1 is Array {
                o
            } else {
                -1
            }
        },
        _ => -1,
    }
}

/// `new` is the order list `old` with the copy added: next to its source
/// where the source is listed, else at the end.
pub open spec fn order_with_copy(
    old: Seq<JsonValue>,
    new: Seq<JsonValue>,
    src: Seq<char>,
    copy: Seq<char>,
) -> bool {
    if has_copy_target(old, 0, src) {
        copy_placed(old, new, 0, src, copy)
    } else {
        &&& new.len() == old.len() + 1
        &&& new.drop_last() == old
        &&& is_copy_entry(new.last(), copy)
    }
}

/// `new` is the layout `old` with the copy added to its `order` list; all
/// other fields as they were.
pub open spec fn layout_with_copy(old: JsonValue, new: JsonValue, src: Seq<char>, copy: Seq<char>) -> bool {
    let o = order_slot(old);
    match (old, new) {
        (JsonValue::Object(f), JsonValue::Object(nf)) => {
            &&& 0 <= o < f@.len()
            &&& nf@.len() == f@.len()
            &&& nf@ == f@.update(o, (f@[o].0, nf@[o].1))
            &&& match (f@[o].1, nf@[o].1) {
                (JsonValue::Array(a), JsonValue::Array(na)) => order_with_copy(a@, na@, src, copy),
                _ => false,
            }
        },
        _ => false,
    }
}

/// Adds the duplicate `copy_id` of connection `source_id` to a sidebar
/// layout: next to its source where the layout lists it, else at the end of
/// the layout's `order`. A layout without an `order` list is refused and
/// left as it was.
pub fn copy_sidebar_layout_entry(layout: &mut JsonValue, source_id: &str, copy_id: &str) -> (r: Result<
    (),
    String,
>)
    ensures
        r is Err <==> order_slot(*old(layout)) < 0,
        match r {
            Ok(_) => layout_with_copy(*old(layout), *final(layout), source_id@, copy_id@),
            Err(e) => {
                &&& *final(layout) == *old(layout)
                &&& e@ == "INVALID_SIDEBAR_LAYOUT: sidebar order is not an array"@
            },
        },
{
    let mut owned = JsonValue::Null;
    std::mem::swap(&mut owned, layout);
    match owned {
        JsonValue::Object(mut f) => {
            let ghost f0 = f@;
            let slot = key_slot_of(f.as_slice(), "order");
            proof {
                lemma_key_slot(f@, "order"@);
            }
            let o = match slot {
                Some(o) => o,
                None => {
                    *layout = JsonValue::Object(f);
                    return Err(String::from_str("INVALID_SIDEBAR_LAYOUT: sidebar order is not an array"));
                },
            };
            let is_list = match &f[o].1 {
                JsonValue::Array(_) => true,
                _ => false,
            };
            if !is_list {
                *layout = JsonValue::Object(f);
                return Err(String::from_str("INVALID_SIDEBAR_LAYOUT: sidebar order is not an array"));
            }
            let (k, kv) = f.remove(o);
            match kv {
                JsonValue::Array(mut order) => {
                    let ghost order0 = order@;
                    if !insert_connection_copy_next_to_source(&mut order, source_id, copy_id) {
                        order.push(copy_entry(copy_id));
                        assert(order@.drop_last() =~= order0);
                    }
                    f.insert(o, (k, JsonValue::Array(order)));
                    assert(f@ =~= f0.update(o as int, (f0[o as int].0, f@[o as int].1)));
                    *layout = JsonValue::Object(f);
                    Ok(())
                },
                _ => {
                    assert(false);
                    Err(String::from_str("INVALID_SIDEBAR_LAYOUT: sidebar order is not an array"))
                },
            }
        },
        other => {
            *layout = other;
            Err(String::from_str("INVALID_SIDEBAR_LAYOUT: sidebar order is not an array"))
        },
    }
}

} // verus!
