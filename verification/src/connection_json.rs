//! Credentials inside the JSON blocks of a connection's driver options: where
//! they sit, which are set, and how they are blanked before a configuration
//! is stored.

use vstd::prelude::*;
use crate::json::{JsonValue, json_as_str, json_object_get, json_object_insert, object_get, text_of};

verus! {

/// The object stored under `key` of a value, if both are objects.
pub open spec fn child_object(v: Option<JsonValue>, key: Seq<char>) -> Option<Seq<(String, JsonValue)>> {
    match v {
        Some(JsonValue::Object(e)) => match object_get(e@, key) {
            Some(JsonValue::Object(c)) => Some(c@),
            _ => None,
        },
        _ => None,
    }
}

/// The object stored under `key` of a value (such as `auth`, `tls` or
/// `tokenSigning`), if both are objects.
pub fn child_json_object<'a>(value: Option<&'a JsonValue>, key: &str) -> (r: Option<&'a Vec<(String, JsonValue)>>)
    ensures
        match r {
            Some(c) => child_object(match value {
                Some(v) => Some(*v),
                None => None,
            }, key@) == Some(c@),
            None => child_object(match value {
                Some(v) => Some(*v),
                None => None,
            }, key@) is None,
        },
{
    match value {
        Some(JsonValue::Object(e)) => match json_object_get(e.as_slice(), key) {
            Some(JsonValue::Object(c)) => Some(c),
            _ => None,
        },
        _ => None,
    }
}

/// The authentication kind of an auth block.
pub fn mq_auth_kind(auth: &Vec<(String, JsonValue)>) -> (r: Option<&str>)
    ensures
        match r {
            Some(k) => text_of(object_get(auth@, "kind"@)) == Some(k@),
            None => text_of(object_get(auth@, "kind"@)) is None,
        },
{
    json_as_str(json_object_get(auth.as_slice(), "kind"))
}

/// Whether an authentication kind names an API key.
pub fn is_api_key_auth_kind(kind: &str) -> (r: bool)
    ensures
        r == (kind@ == "apiKey"@ || kind@ == "api_key"@ || kind@ == "apikey"@),
{
    crate::text::str_eq(kind, "apiKey") || crate::text::str_eq(kind, "api_key") || crate::text::str_eq(kind, "apikey")
}

/// The secret an auth block holds under `field`: a non-empty string.
pub open spec fn secret_in(auth: Seq<(String, JsonValue)>, field: Seq<char>) -> Option<Seq<char>> {
    match text_of(object_get(auth, field)) {
        Some(t) => if t.len() > 0 {
            Some(t)
        } else {
            None
        },
        None => None,
    }
}

/// The secret an auth block holds under `field`, which is to be moved to the
/// encrypted store.
pub fn json_secret<'a>(auth: &'a Vec<(String, JsonValue)>, field: &str) -> (r: Option<&'a str>)
    ensures
        match r {
            Some(s) => secret_in(auth@, field@) == Some(s@),
            None => secret_in(auth@, field@) is None,
        },
{
    match json_as_str(json_object_get(auth.as_slice(), field)) {
        Some(s) => if s.unicode_len() > 0 {
            Some(s)
        } else {
            None
        },
        None => None,
    }
}

/// `new` is the block `old` with its `field` blanked where present: that
/// field holds the empty string, every other field is as it was.
pub open spec fn secret_blanked(
    old: Seq<(String, JsonValue)>,
    new: Seq<(String, JsonValue)>,
    field: Seq<char>,
) -> bool {
    &&& forall|k: Seq<char>| k != field ==> #[trigger] object_get(new, k) == object_get(old, k)
    &&& object_get(old, field) is Some ==> text_of(object_get(new, field)) == Some(Seq::<char>::empty())
    &&& object_get(old, field) is None ==> object_get(new, field) is None
}

/// Blanks a secret field of an auth block where the field is present.
pub fn scrub_json_secret(auth: &mut Vec<(String, JsonValue)>, field: &str)
    ensures
        secret_blanked(old(auth)@, final(auth)@, field@),
{
    if json_object_get(auth.as_slice(), field).is_some() {
        let e = String::from_str("");
        proof {
            reveal_strlit("");
        }
        assert(e@ =~= Seq::<char>::empty());
        let ghost blank = JsonValue::Text(e);
        json_object_insert(auth, field, JsonValue::Text(e));
        assert(object_get(auth@, field@) == Some(blank));
    }
}

/// The field of a message-queue auth block that holds its secret, by the
/// block's kind.
pub open spec fn mq_secret_field(kind: Seq<char>) -> Option<Seq<char>> {
    if kind == "token"@ {
        Some("token"@)
    } else if kind == "basic"@ {
        Some("password"@)
    } else if kind == "apiKey"@ || kind == "api_key"@ || kind == "apikey"@ {
        Some("value"@)
    } else if kind == "oauth2"@ {
        Some("clientSecret"@)
    } else {
        None
    }
}

/// The field of a message-queue auth block that holds its secret, by the
/// block's kind (`none` and unknown kinds hold none).
pub fn mq_auth_secret_field(kind: &str) -> (r: Option<&'static str>)
    ensures
        match r {
            Some(f) => mq_secret_field(kind@) == Some(f@),
            None => mq_secret_field(kind@) is None,
        },
{
    if crate::text::str_eq(kind, "token") {
        Some("token")
    } else if crate::text::str_eq(kind, "basic") {
        Some("password")
    } else if is_api_key_auth_kind(kind) {
        Some("value")
    } else if crate::text::str_eq(kind, "oauth2") {
        Some("clientSecret")
    } else {
        None
    }
}

/// Blanks the secret of a message-queue auth block, chosen by its kind,
/// before the block is stored with a connection's configuration.
pub fn scrub_mq_auth_block(auth: &mut Vec<(String, JsonValue)>)
    ensures
        match text_of(object_get(old(auth)@, "kind"@)) {
            Some(kind) => match mq_secret_field(kind) {
                Some(field) => secret_blanked(old(auth)@, final(auth)@, field),
                None => final(auth)@ == old(auth)@,
            },
            None => final(auth)@ == old(auth)@,
        },
{
    let field = match mq_auth_kind(auth) {
        Some(kind) => mq_auth_secret_field(kind),
        None => None,
    };
    match field {
        Some(f) => scrub_json_secret(auth, f),
        None => {},
    }
}

} // verus!
