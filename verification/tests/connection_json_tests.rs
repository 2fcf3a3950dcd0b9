use dbx_storage::connection_json::{
    child_json_object, is_api_key_auth_kind, json_secret, mq_auth_kind, mq_auth_secret_field, scrub_json_secret,
    scrub_mq_auth_block,
};
use dbx_storage::json::{JsonNumber, JsonValue};

fn text(s: &str) -> JsonValue {
    JsonValue::Text(s.to_string())
}

fn block(fields: &[(&str, JsonValue)]) -> Vec<(String, JsonValue)> {
    fields.iter().map(|(k, v)| (k.to_string(), clone_value(v))).collect()
}

fn clone_value(v: &JsonValue) -> JsonValue {
    match v {
        JsonValue::Null => JsonValue::Null,
        JsonValue::Bool(b) => JsonValue::Bool(*b),
        JsonValue::Number(n) => JsonValue::Number(n.clone()),
        JsonValue::Text(t) => JsonValue::Text(t.clone()),
        JsonValue::Array(items) => JsonValue::Array(items.iter().map(clone_value).collect()),
        JsonValue::Object(entries) => {
            JsonValue::Object(entries.iter().map(|(k, v)| (k.clone(), clone_value(v))).collect())
        }
    }
}

#[test]
fn child_object_is_found_under_its_key() {
    let external = JsonValue::Object(block(&[
        ("auth", JsonValue::Object(block(&[("kind", text("token"))]))),
        ("tls", text("not an object")),
    ]));
    assert_eq!(child_json_object(Some(&external), "auth"), Some(&block(&[("kind", text("token"))])));
    assert_eq!(child_json_object(Some(&external), "tls"), None);
    assert_eq!(child_json_object(Some(&external), "missing"), None);
    assert_eq!(child_json_object(None, "auth"), None);
    assert_eq!(child_json_object(Some(&text("x")), "auth"), None);
}

#[test]
fn auth_kind_and_api_key_spellings() {
    assert_eq!(mq_auth_kind(&block(&[("kind", text("basic"))])), Some("basic"));
    assert_eq!(mq_auth_kind(&block(&[("kind", JsonValue::Number(JsonNumber::PosInt(1)))])), None);
    assert!(is_api_key_auth_kind("apiKey") && is_api_key_auth_kind("api_key") && is_api_key_auth_kind("apikey"));
    assert!(!is_api_key_auth_kind("APIKEY") && !is_api_key_auth_kind("token"));
}

#[test]
fn secret_field_by_auth_kind() {
    assert_eq!(mq_auth_secret_field("token"), Some("token"));
    assert_eq!(mq_auth_secret_field("basic"), Some("password"));
    assert_eq!(mq_auth_secret_field("api_key"), Some("value"));
    assert_eq!(mq_auth_secret_field("oauth2"), Some("clientSecret"));
    assert_eq!(mq_auth_secret_field("none"), None);
}

#[test]
fn json_secret_needs_a_non_empty_string() {
    let auth = block(&[("token", text("s3")), ("empty", text("")), ("number", JsonValue::Number(JsonNumber::PosInt(3)))]);
    assert_eq!(json_secret(&auth, "token"), Some("s3"));
    assert_eq!(json_secret(&auth, "empty"), None);
    assert_eq!(json_secret(&auth, "number"), None);
    assert_eq!(json_secret(&auth, "missing"), None);
}

#[test]
fn scrubbing_blanks_only_present_secret() {
    let mut auth = block(&[("kind", text("basic")), ("username", text("u")), ("password", text("p"))]);
    scrub_json_secret(&mut auth, "password");
    assert_eq!(json_secret(&auth, "password"), None);
    assert_eq!(mq_auth_kind(&auth), Some("basic"));
    assert!(auth.iter().any(|(k, v)| k == "password" && *v == text("")));
    assert!(auth.iter().any(|(k, v)| k == "username" && *v == text("u")));
    let mut no_secret = block(&[("kind", text("basic"))]);
    scrub_json_secret(&mut no_secret, "password");
    assert_eq!(no_secret, block(&[("kind", text("basic"))]));
}

#[test]
fn mq_auth_block_scrub_follows_kind() {
    let mut oauth = block(&[("kind", text("oauth2")), ("clientId", text("id")), ("clientSecret", text("cs"))]);
    scrub_mq_auth_block(&mut oauth);
    assert_eq!(json_secret(&oauth, "clientSecret"), None);
    assert_eq!(json_secret(&oauth, "clientId"), Some("id"));
    let mut unknown = block(&[("kind", text("custom")), ("password", text("p"))]);
    scrub_mq_auth_block(&mut unknown);
    assert_eq!(unknown, block(&[("kind", text("custom")), ("password", text("p"))]));
    let mut key = block(&[("kind", text("apikey")), ("value", text("v")), ("password", text("p"))]);
    scrub_mq_auth_block(&mut key);
    assert_eq!(json_secret(&key, "value"), None);
    assert_eq!(json_secret(&key, "password"), Some("p"));
}
