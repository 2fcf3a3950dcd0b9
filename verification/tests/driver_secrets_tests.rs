use dbx_storage::driver_secrets::{
    cassandra_tls_secret_writes, hydrate_json_secret, mqtt_auth_secret_writes, nacos_auth_secret_writes,
    nacos_unsaved_needs_rewrite,
    salesforce_auth_secret_writes, token_signing_secret_writes,
};
use dbx_storage::json::JsonValue;
use dbx_storage::secret_writes::SecretWrite;

fn text(s: &str) -> JsonValue {
    JsonValue::Text(s.to_string())
}

fn object(entries: Vec<(&str, JsonValue)>) -> JsonValue {
    JsonValue::Object(entries.into_iter().map(|(k, v)| (k.to_string(), v)).collect())
}

fn put(k: &str, v: &str) -> SecretWrite {
    SecretWrite::Put(k.to_string(), v.to_string())
}

fn clear(p: &str) -> SecretWrite {
    SecretWrite::RemovePrefix(p.to_string())
}

#[test]
fn mqtt_password_moves_to_the_store() {
    let ext = Some(object(vec![("auth", object(vec![("kind", text("password")), ("password", text("pw"))]))]));
    assert_eq!(
        mqtt_auth_secret_writes(true, &ext, "mqtt.", "mqtt.password", &Some("old".to_string())),
        vec![clear("mqtt."), put("mqtt.password", "pw")]
    );
    let blank = Some(object(vec![("auth", object(vec![("kind", text("password")), ("password", text(""))]))]));
    assert_eq!(
        mqtt_auth_secret_writes(true, &blank, "mqtt.", "mqtt.password", &Some("old".to_string())),
        vec![clear("mqtt."), put("mqtt.password", "old")]
    );
    assert_eq!(mqtt_auth_secret_writes(false, &ext, "mqtt.", "mqtt.password", &None), vec![clear("mqtt.")]);
    let anonymous = Some(object(vec![("auth", object(vec![("kind", text("none"))]))]));
    assert_eq!(mqtt_auth_secret_writes(true, &anonymous, "mqtt.", "mqtt.password", &None), vec![clear("mqtt.")]);
}

#[test]
fn token_signing_key_is_kept_unless_replaced() {
    let ext = Some(object(vec![("tokenSigning", object(vec![("key", text("k1"))]))]));
    assert_eq!(token_signing_secret_writes(true, &ext, "sign.", "sign.key"), vec![put("sign.key", "k1")]);
    let empty = Some(object(vec![("tokenSigning", object(vec![("key", text(""))]))]));
    assert_eq!(token_signing_secret_writes(true, &empty, "sign.", "sign.key"), Vec::<SecretWrite>::new());
    assert_eq!(token_signing_secret_writes(true, &None, "sign.", "sign.key"), vec![clear("sign.")]);
}

#[test]
fn nacos_passwords_follow_save_password() {
    let ext = Some(object(vec![
        ("auth", object(vec![("kind", text("usernamePassword")), ("password", text("p1"))])),
        ("rnacosConsoleAuth", object(vec![("kind", text("usernamePassword")), ("password", text(""))])),
    ]));
    assert_eq!(
        nacos_auth_secret_writes(true, true, &ext, "nacos.", "nacos.password", "nacos.console", &None, &Some(
            "c0".to_string(),
        )),
        vec![clear("nacos."), put("nacos.password", "p1"), put("nacos.console", "c0")]
    );
    assert_eq!(
        nacos_auth_secret_writes(true, false, &ext, "nacos.", "nacos.password", "nacos.console", &None, &None),
        vec![clear("nacos.")]
    );
}

#[test]
fn cassandra_tls_passwords_are_written_both() {
    let ext = Some(object(vec![("tls", object(vec![("truststore_password", text("t"))]))]));
    assert_eq!(
        cassandra_tls_secret_writes(true, &ext, "tls.", "tls.trust", "tls.key"),
        vec![put("tls.trust", "t"), put("tls.key", "")]
    );
    assert_eq!(cassandra_tls_secret_writes(false, &ext, "tls.", "tls.trust", "tls.key"), vec![clear("tls.")]);
}

#[test]
fn salesforce_credentials_are_replaced_one_by_one() {
    let ext = Some(object(vec![("auth", object(vec![("clientSecret", text("cs")), ("password", text(""))]))]));
    let none: Option<String> = None;
    let old_token = Some("rt".to_string());
    assert_eq!(
        salesforce_auth_secret_writes(true, &ext, "sf.", ("sf.cs", "sf.rt", "sf.pw"), (&none, &old_token, &none)),
        vec![
            SecretWrite::Remove("sf.cs".to_string()),
            put("sf.cs", "cs"),
            SecretWrite::Remove("sf.rt".to_string()),
            put("sf.rt", "rt"),
            SecretWrite::Remove("sf.pw".to_string()),
        ]
    );
}

#[test]
fn hydration_moves_inline_secrets_and_fills_blank_ones() {
    let mut block = vec![("password".to_string(), text("inline"))];
    let w = hydrate_json_secret(&mut block, "password", "k", &Some("stored".to_string()));
    assert_eq!(w, Some(put("k", "inline")));
    assert_eq!(block, vec![("password".to_string(), text("inline"))]);

    let mut blank = vec![("password".to_string(), text(""))];
    let w = hydrate_json_secret(&mut blank, "password", "k", &Some("stored".to_string()));
    assert_eq!(w, None);
    assert!(blank.iter().any(|(k, v)| k == "password" && *v == text("stored")));

    let mut missing: Vec<(String, JsonValue)> = Vec::new();
    assert_eq!(hydrate_json_secret(&mut missing, "password", "k", &None), None);
    assert!(missing.is_empty());
}

#[test]
fn an_unsaved_nacos_password_forces_a_rewrite() {
    let with = Some(object(vec![("rnacosConsoleAuth", object(vec![("kind", text("usernamePassword")), ("password", text("c"))]))]));
    assert!(nacos_unsaved_needs_rewrite(&with));
    let other_kind = Some(object(vec![("auth", object(vec![("kind", text("token")), ("password", text("c"))]))]));
    assert!(!nacos_unsaved_needs_rewrite(&other_kind));
    assert!(!nacos_unsaved_needs_rewrite(&None));
}
