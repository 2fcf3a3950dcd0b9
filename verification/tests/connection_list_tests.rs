use dbx_storage::connection_list::{
    connection_has_inline_secrets, connection_secret_owner_kept, external_config_has_secret, matches_like_prefix,
    plan_connection_list_save,
};
use dbx_storage::json::JsonValue;
use dbx_storage::secret_writes::{ConnectionSecretFields, TransportLayerSecrets};

fn ids(v: &[&str]) -> Vec<String> {
    v.iter().map(|x| x.to_string()).collect()
}

fn text(s: &str) -> JsonValue {
    JsonValue::Text(s.to_string())
}

fn object(entries: Vec<(&str, JsonValue)>) -> JsonValue {
    JsonValue::Object(entries.into_iter().map(|(k, v)| (k.to_string(), v)).collect())
}

fn empty_fields() -> ConnectionSecretFields {
    ConnectionSecretFields {
        save_password: true,
        password: String::new(),
        transport_layers: Vec::new(),
        redis_sentinel_password: String::new(),
        url_params: None,
        connection_string: None,
        init_script: Some(String::new()),
    }
}

#[test]
fn a_list_save_keeps_only_unreadable_rows_it_does_not_replace() {
    let rows = vec![
        ("a".to_string(), true),
        ("broken".to_string(), false),
        ("replaced".to_string(), false),
        ("old".to_string(), true),
    ];
    let plan = plan_connection_list_save(&rows, &ids(&["a", "replaced", "new"]));
    assert_eq!(plan.preserved, ids(&["broken"]));
    assert_eq!(plan.retained, ids(&["broken", "a", "replaced", "new"]));
}

#[test]
fn secrets_of_dropped_connections_go_but_shared_namespaces_stay() {
    let retained = ids(&["broken", "a"]);
    assert!(connection_secret_owner_kept("a", &retained));
    assert!(!connection_secret_owner_kept("old", &retained));
    assert!(connection_secret_owner_kept("ai_config.openai", &retained));
    assert!(connection_secret_owner_kept("tunnel_profile.t1", &retained));
    assert!(connection_secret_owner_kept("dbx.global", &retained));
    assert!(!connection_secret_owner_kept("dbx.globalx", &retained));
    // SQLite's LIKE: `_` matches any character, letters in either case.
    assert!(connection_secret_owner_kept("AIXCONFIG.x", &[]));
    assert!(!connection_secret_owner_kept("ai_config", &[]));
    assert!(matches_like_prefix("Tunnel-Profile.z", "tunnel_profile."));
    assert!(!matches_like_prefix("tunnel.z", "tunnel_profile."));
}

#[test]
fn inline_secrets_are_found_anywhere_in_the_configuration() {
    let fields = empty_fields();
    assert!(!connection_has_inline_secrets(&fields, &[("token".to_string(), String::new())], &None));
    assert!(connection_has_inline_secrets(&fields, &[("token".to_string(), "t".to_string())], &None));
    let mut with_layer = empty_fields();
    with_layer.transport_layers =
        vec![TransportLayerSecrets::HttpTunnel { id: "h".to_string(), token: "tok".to_string() }];
    assert!(connection_has_inline_secrets(&with_layer, &[], &None));
    let mut with_url = empty_fields();
    with_url.url_params = Some("a=1".to_string());
    assert!(connection_has_inline_secrets(&with_url, &[], &None));

    // The first auth key present decides, even when it is empty.
    let auth_first_empty = object(vec![("auth", object(vec![("token", text("")), ("password", text("pw"))]))]);
    assert!(!external_config_has_secret(&Some(auth_first_empty)));
    let auth_password = || object(vec![("auth", object(vec![("password", text("pw"))]))]);
    assert!(external_config_has_secret(&Some(auth_password())));
    assert!(connection_has_inline_secrets(&fields, &[], &Some(auth_password())));
    let signing = object(vec![("tokenSigning", object(vec![("key", JsonValue::Bool(true))]))]);
    assert!(external_config_has_secret(&Some(signing)));
    let tls_null = object(vec![("tls", object(vec![("keystore_password", JsonValue::Null)]))]);
    assert!(!external_config_has_secret(&Some(tls_null)));
    let tls = object(vec![("tls", object(vec![("truststore_password", text("x"))]))]);
    assert!(external_config_has_secret(&Some(tls)));
    let nacos = object(vec![("rnacosConsoleAuth", object(vec![("password", text("n"))]))]);
    assert!(external_config_has_secret(&Some(nacos)));
    assert!(!external_config_has_secret(&Some(text("not an object"))));
}
