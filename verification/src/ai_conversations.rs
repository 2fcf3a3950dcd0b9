//! Stored AI conversations: binding conversations saved before they kept a
//! connection id to the one connection that carries their connection name.

use vstd::prelude::*;
use crate::json::{JsonValue, json_as_str, json_object_get, object_get, text_of};
use crate::text::{chars_eq, chars_of, trim, trim_chars};

verus! {

/// The display name of a stored connection configuration: its `name`
/// string, trimmed; empty where there is none.
pub open spec fn display_name(config: JsonValue) -> Seq<char> {
    match config {
        JsonValue::Object(f) => match text_of(object_get(f@, "name"@)) {
            Some(t) => trim(t),
            None => Seq::empty(),
        },
        _ => Seq::empty(),
    }
}

/// The ids, in order, of the connections whose display name is `name`
/// (none for an empty name).
pub open spec fn connections_named(connections: Seq<(String, JsonValue)>, name: Seq<char>) -> Seq<Seq<char>>
    decreases connections.len(),
{
    if connections.len() == 0 {
        Seq::empty()
    } else {
        let rest = connections_named(connections.drop_last(), name);
        if name.len() > 0 && display_name(connections.last().1) == name {
            rest.push(connections.last().0@)
        } else {
            rest
        }
    }
}

/// The one connection named `name`, if exactly one is.
pub open spec fn sole_connection_named(connections: Seq<(String, JsonValue)>, name: Seq<char>) -> Option<
    Seq<char>,
> {
    let m = connections_named(connections, name);
    if m.len() == 1 {
        Some(m[0])
    } else {
        None
    }
}

/// The bindings, in order, of the unbound conversations `(id, connection
/// name)` whose trimmed connection name only one connection carries.
pub open spec fn backfill_bindings(
    connections: Seq<(String, JsonValue)>,
    unbound: Seq<(String, String)>,
) -> Seq<(Seq<char>, Seq<char>)>
    decreases unbound.len(),
{
    if unbound.len() == 0 {
        Seq::empty()
    } else {
        let rest = backfill_bindings(connections, unbound.drop_last());
        match sole_connection_named(connections, trim(unbound.last().1@)) {
            Some(id) => rest.push((unbound.last().0@, id)),
            None => rest,
        }
    }
}

/// Views of `(conversation id, connection id)` pairs.
pub open spec fn binding_views(v: Seq<(String, String)>) -> Seq<(Seq<char>, Seq<char>)> {
    v.map_values(|b: (String, String)| (b.0@, b.1@))
}

/// The display name of a stored connection configuration.
fn display_name_of(config: &JsonValue) -> (r: Vec<char>)
    ensures
        r@ == display_name(*config),
{
    match config {
        JsonValue::Object(f) => match json_as_str(json_object_get(f.as_slice(), "name")) {
            Some(t) => trim_chars(chars_of(t).as_slice()),
            None => Vec::new(),
        },
        _ => Vec::new(),
    }
}

/// The one connection whose display name is `name`, if exactly one is.
fn sole_connection_with_name(connections: &[(String, JsonValue)], name: &[char]) -> (r: Option<String>)
    ensures
        match r {
            Some(id) => sole_connection_named(connections@, name@) == Some(id@),
            None => sole_connection_named(connections@, name@) is None,
        },
{
    let mut count: usize = 0;
    let mut first: Option<String> = None;
    let mut i: usize = 0;
    while i < connections.len()
        invariant
            i <= connections.len(),
            count == connections_named(connections@.take(i as int), name@).len(),
            count <= i,
            count > 0 ==> (first matches Some(f) && f@ == connections_named(connections@.take(i as int), name@)[0]),
        decreases connections.len() - i,
    {
        let ghost before = connections_named(connections@.take(i as int), name@);
        assert(connections@.take(i + 1).drop_last() =~= connections@.take(i as int));
        assert(connections@.take(i + 1).last() == connections@[i as int]);
        if name.len() > 0 {
            let d = display_name_of(&connections[i].1);
            if chars_eq(d.as_slice(), name) {
                if count == 0 {
                    first = Some(connections[i].0.clone());
                }
                count = count + 1;
            }
        }
        i = i + 1;
        proof {
            let now = connections_named(connections@.take(i as int), name@);
            if now.len() > before.len() {
                assert(now == before.push(connections@[i - 1].0@));
                assert(now[0] == if before.len() > 0 { before[0] } else { connections@[i - 1].0@ });
            }
        }
    }
    assert(connections@.take(connections.len() as int) =~= connections@);
    if count == 1 {
        first
    } else {
        None
    }
}

/// Which unbound conversations to bind: each `(conversation id, connection
/// name)` whose trimmed name exactly one stored connection `(id, parsed
/// configuration)` carries gets that connection's id; an empty name, no
/// match or several matches leave the conversation unbound.
pub fn ai_conversation_connection_backfill(
    connections: &[(String, JsonValue)],
    unbound: &[(String, String)],
) -> (r: Vec<(String, String)>)
    ensures
        binding_views(r@) == backfill_bindings(connections@, unbound@),
{
    let mut out: Vec<(String, String)> = Vec::new();
    let mut i: usize = 0;
    while i < unbound.len()
        invariant
            i <= unbound.len(),
            binding_views(out@) == backfill_bindings(connections@, unbound@.take(i as int)),
        decreases unbound.len() - i,
    {
        assert(unbound@.take(i + 1).drop_last() =~= unbound@.take(i as int));
        assert(unbound@.take(i + 1).last() == unbound@[i as int]);
        let name = trim_chars(chars_of(unbound[i].1.as_str()).as_slice());
        let ghost prev = binding_views(out@);
        match sole_connection_with_name(connections, name.as_slice()) {
            Some(id) => {
                let conv = unbound[i].0.clone();
                out.push((conv, id));
                assert(binding_views(out@) =~= prev.push((unbound@[i as int].0@, id@)));
            },
            None => {},
        }
        i = i + 1;
    }
    assert(unbound@.take(unbound.len() as int) =~= unbound@);
    out
}

/// The unbound conversations that a run leaves unbound: those whose name no
/// connection, or several, carry.
pub open spec fn left_unbound(
    connections: Seq<(String, JsonValue)>,
    unbound: Seq<(String, String)>,
) -> Seq<(String, String)> {
    unbound.filter(|c: (String, String)| sole_connection_named(connections, trim(c.1@)) is None)
}

proof fn lemma_no_bindings(connections: Seq<(String, JsonValue)>, unbound: Seq<(String, String)>)
    requires
        forall|i: int| 0 <= i < unbound.len() ==> sole_connection_named(connections, trim(#[trigger] unbound[i].1@)) is None,
    ensures
        backfill_bindings(connections, unbound) == Seq::<(Seq<char>, Seq<char>)>::empty(),
    decreases unbound.len(),
{
    if unbound.len() > 0 {
        let rest = unbound.drop_last();
        assert forall|i: int| 0 <= i < rest.len() implies sole_connection_named(connections, trim(#[trigger] rest[i].1@)) is None by {
            assert(rest[i] == unbound[i]);
        }
        lemma_no_bindings(connections, rest);
        assert(sole_connection_named(connections, trim(unbound[unbound.len() - 1].1@)) is None);
    }
}

/// Binding is idempotent: with the same connections, a second run over the
/// conversations a first run left unbound binds nothing.
pub proof fn lemma_backfill_idempotent(connections: Seq<(String, JsonValue)>, unbound: Seq<(String, String)>)
    ensures
        backfill_bindings(connections, left_unbound(connections, unbound)) == Seq::<(Seq<char>, Seq<char>)>::empty(),
{
    let pred = |c: (String, String)| sole_connection_named(connections, trim(c.1@)) is None;
    let rest = left_unbound(connections, unbound);
    assert forall|i: int| 0 <= i < rest.len() implies sole_connection_named(connections, trim(#[trigger] rest[i].1@)) is None by {
        unbound.lemma_filter_pred(pred, i);
    }
    lemma_no_bindings(connections, rest);
}

} // verus!
