use dbx_storage::connection_copy::{duplicate_connection_plan, mcp_connection_change_allowed};
use dbx_storage::connection_load::{find_stored_secret, load_connection_fields, plan_connection_load};
use dbx_storage::json::JsonValue;
use dbx_storage::secret_writes::{
    connection_secret_write_plan, sanitized_connection_fields, config_blob_move, legacy_config_namespace, plan_tunnel_profile_moves, scrub_tunnel_profile, sync_connection_secret_plan,
    sync_import_needs_key, ConfigBlobMove, ConnectionSecretFields, LegacyConfigKind, SecretWrite,
    TransportLayerSecrets,
};
use dbx_storage::secrets::{
    ssh_tunnel_password_key, transport_layer_http_tunnel_token_key, transport_layer_proxy_password_key,
    transport_layer_ssh_key_passphrase_key, transport_layer_ssh_password_key,
};

fn pair(k: &str, v: &str) -> (String, String) {
    (k.to_string(), v.to_string())
}

fn bare_fields(layers: Vec<TransportLayerSecrets>) -> ConnectionSecretFields {
    ConnectionSecretFields {
        save_password: true,
        password: "inline-password".to_string(),
        transport_layers: layers,
        redis_sentinel_password: "inline-sentinel".to_string(),
        url_params: Some("sslmode=require".to_string()),
        connection_string: Some("inline-connection-string".to_string()),
        init_script: None,
    }
}

#[test]
fn stored_secret_lookup_takes_the_first_matching_key() {
    let stored = vec![pair("password", "first"), pair("password", "second"), pair("token", "t")];
    assert_eq!(find_stored_secret(&stored, "password"), Some("first".to_string()));
    assert_eq!(find_stored_secret(&stored, "token"), Some("t".to_string()));
    assert_eq!(find_stored_secret(&stored, "missing"), None);
}

#[test]
fn loading_takes_credentials_from_the_store() {
    let fields = bare_fields(vec![
        TransportLayerSecrets::Ssh { id: "hop".to_string(), password: String::new(), key_passphrase: String::new() },
        TransportLayerSecrets::Proxy { id: "legacy-proxy".to_string(), password: String::new() },
        TransportLayerSecrets::HttpTunnel { id: "edge".to_string(), token: "stale".to_string() },
    ]);
    let stored = vec![
        pair("password", "db-secret"),
        pair(&ssh_tunnel_password_key(0, "hop"), "old-hop-password"),
        pair(&transport_layer_ssh_key_passphrase_key(0, "hop"), "hop-passphrase"),
        pair("proxy_password", "legacy-proxy-password"),
        pair("init_script", "SET search_path = app"),
    ];
    let loaded = load_connection_fields(&fields, &stored);
    assert!(loaded.save_password);
    assert_eq!(loaded.password, "db-secret");
    // No stored URL parameters: the configuration's stay.
    assert_eq!(loaded.url_params, Some("sslmode=require".to_string()));
    assert_eq!(
        loaded.transport_layers,
        vec![
            TransportLayerSecrets::Ssh {
                id: "hop".to_string(),
                password: "old-hop-password".to_string(),
                key_passphrase: "hop-passphrase".to_string(),
            },
            TransportLayerSecrets::Proxy {
                id: "legacy-proxy".to_string(),
                password: "legacy-proxy-password".to_string(),
            },
            TransportLayerSecrets::HttpTunnel { id: "edge".to_string(), token: String::new() },
        ]
    );
    assert_eq!(loaded.redis_sentinel_password, "");
    assert_eq!(loaded.connection_string, None);
    assert_eq!(loaded.init_script, Some("SET search_path = app".to_string()));
}

#[test]
fn a_layer_key_wins_over_the_older_key() {
    let fields = bare_fields(vec![
        TransportLayerSecrets::Ssh { id: "legacy".to_string(), password: String::new(), key_passphrase: String::new() },
        TransportLayerSecrets::Proxy { id: "corp".to_string(), password: String::new() },
        TransportLayerSecrets::HttpTunnel { id: "edge".to_string(), token: String::new() },
    ]);
    let stored = vec![
        pair("ssh_password", "older"),
        pair(&transport_layer_ssh_password_key(0, "legacy"), "newer"),
        pair("ssh_key_passphrase", "older-passphrase"),
        pair("proxy_password", "not-for-this-proxy"),
        pair(&transport_layer_proxy_password_key(1, "corp"), "corp-password"),
        pair(&transport_layer_http_tunnel_token_key(2, "edge"), "edge-token"),
        pair("url_params", "stored=1"),
    ];
    let loaded = load_connection_fields(&fields, &stored);
    assert_eq!(
        loaded.transport_layers,
        vec![
            TransportLayerSecrets::Ssh {
                id: "legacy".to_string(),
                password: "newer".to_string(),
                key_passphrase: "older-passphrase".to_string(),
            },
            TransportLayerSecrets::Proxy { id: "corp".to_string(), password: "corp-password".to_string() },
            TransportLayerSecrets::HttpTunnel { id: "edge".to_string(), token: "edge-token".to_string() },
        ]
    );
    assert_eq!(loaded.url_params, Some("stored=1".to_string()));
    assert_eq!(loaded.password, "");
}

#[test]
fn inline_plugin_secrets_move_to_the_store() {
    let fields = bare_fields(Vec::new());
    let inline = vec![pair("api_token", "inline-token"), pair("region", "")];
    let stored = vec![pair("plugin.region", "eu-west")];
    let plan = plan_connection_load(&fields, &inline, &[], &stored, "plugin.");
    assert_eq!(plan.plugin_secrets, vec![pair("api_token", "inline-token"), pair("region", "eu-west")]);
    assert_eq!(
        plan.writes,
        vec![SecretWrite::Put("plugin.api_token".to_string(), "inline-token".to_string())]
    );
    assert!(plan.rewrite_config);
}

#[test]
fn stored_plugin_secrets_replace_inline_ones() {
    let fields = bare_fields(Vec::new());
    let inline = vec![pair("api_token", "inline-token")];
    let stored_plugin = vec![pair("api_token", "")];
    let stored = vec![pair("plugin.api_token", "from-store")];
    let plan = plan_connection_load(&fields, &inline, &stored_plugin, &stored, "plugin.");
    assert_eq!(plan.plugin_secrets, vec![pair("api_token", "from-store")]);
    assert!(plan.writes.is_empty());
    assert!(!plan.rewrite_config);

    let empty = plan_connection_load(&fields, &[], &[], &stored, "plugin.");
    assert!(empty.plugin_secrets.is_empty());
    assert!(!empty.rewrite_config);
}

#[test]
fn duplicating_a_connection_checks_in_order() {
    let names = vec!["Production".to_string(), "Staging".to_string()];
    let secrets = vec![pair("password", "p"), pair("ssh_password", ""), pair("init_script", "SELECT 1")];
    assert_eq!(
        duplicate_connection_plan(true, false, "src", "Production", &names, false, &secrets),
        Err("MCP_READ_ONLY: DBX global MCP read-only mode is enabled. Connection changes are blocked.".to_string())
    );
    assert_eq!(
        duplicate_connection_plan(false, false, "src", "Production", &names, false, &secrets),
        Err("CONNECTION_OUT_OF_SCOPE: connection 'src' is not allowed by the current DBX MCP policy".to_string())
    );
    assert_eq!(
        duplicate_connection_plan(false, true, "src", "PRODUCTION", &names, false, &secrets),
        Err("CONNECTION_ALREADY_EXISTS: connection 'PRODUCTION' already exists".to_string())
    );
    assert_eq!(
        duplicate_connection_plan(false, true, "src", "Copy", &names, false, &secrets),
        Err("CONNECTION_NOT_FOUND: connection 'src' was not found".to_string())
    );
    assert_eq!(
        duplicate_connection_plan(false, true, "src", "Copy", &names, true, &secrets),
        Ok(vec![pair("password", "p"), pair("init_script", "SELECT 1")])
    );
}

#[test]
fn sync_import_key_need() {
    let none: Option<Vec<String>> = None;
    assert!(!sync_import_needs_key(&[None, Some(String::new())], &none, None, false, false));
    assert!(sync_import_needs_key(&[None, Some("a=1".to_string())], &none, None, false, false));
    assert!(!sync_import_needs_key(&[], &Some(vec![String::new()]), Some(0), false, false));
    assert!(sync_import_needs_key(&[], &Some(vec![String::new(), "s".to_string()]), None, false, false));
    assert!(sync_import_needs_key(&[], &none, Some(2), false, false));
    assert!(sync_import_needs_key(&[], &none, None, true, false));
    assert!(sync_import_needs_key(&[], &none, None, false, true));
}

#[test]
fn sync_import_skips_empty_secrets() {
    let secrets = vec![
        ("c1".to_string(), "password".to_string(), "p".to_string()),
        ("c1".to_string(), "url_params".to_string(), String::new()),
        ("c2".to_string(), "token".to_string(), "t".to_string()),
    ];
    assert_eq!(
        sync_connection_secret_plan(&secrets),
        vec![
            ("c1".to_string(), "password".to_string(), "p".to_string()),
            ("c2".to_string(), "token".to_string(), "t".to_string()),
        ]
    );
}

#[test]
fn legacy_configuration_namespaces() {
    assert_eq!(legacy_config_namespace(LegacyConfigKind::AiConfig, "a1"), "ai_config.a1");
    assert_eq!(legacy_config_namespace(LegacyConfigKind::SingleAiConfig, "ignored"), "ai_config.legacy");
    assert_eq!(legacy_config_namespace(LegacyConfigKind::AiProvider, "openai"), "ai_config.provider.openai");
    assert_eq!(legacy_config_namespace(LegacyConfigKind::TunnelProfile, "t1"), "tunnel_profile.t1");
}

#[test]
fn a_stored_blob_wins_over_inline_secrets() {
    let secrets = JsonValue::Object(vec![("apiKey".to_string(), JsonValue::Text("sk".to_string()))]);
    assert_eq!(config_blob_move(&secrets, true), ConfigBlobMove::KeepStored);
    assert_eq!(config_blob_move(&secrets, false), ConfigBlobMove::Store);
    assert_eq!(config_blob_move(&JsonValue::Object(Vec::new()), false), ConfigBlobMove::Nothing);
    assert_eq!(config_blob_move(&JsonValue::Null, true), ConfigBlobMove::Nothing);
}

#[test]
fn tunnel_profiles_lose_their_credentials() {
    let (clean, changed) = scrub_tunnel_profile(&TransportLayerSecrets::Ssh {
        id: "t1".to_string(),
        password: "pw".to_string(),
        key_passphrase: String::new(),
    });
    assert!(changed);
    assert_eq!(
        clean,
        TransportLayerSecrets::Ssh { id: "t1".to_string(), password: String::new(), key_passphrase: String::new() }
    );
    let (_, unchanged) =
        scrub_tunnel_profile(&TransportLayerSecrets::HttpTunnel { id: "t2".to_string(), token: String::new() });
    assert!(!unchanged);
}

fn apply_writes(store: &mut Vec<(String, String)>, writes: &[SecretWrite]) {
    for w in writes {
        match w {
            SecretWrite::Put(k, v) => {
                store.retain(|(key, _)| key != k);
                if !v.is_empty() {
                    store.push((k.clone(), v.clone()));
                }
            }
            SecretWrite::Remove(k) => store.retain(|(key, _)| key != k),
            SecretWrite::RemovePrefix(p) => store.retain(|(key, _)| !key.starts_with(p.as_str())),
        }
    }
}

#[test]
fn saved_credentials_load_back() {
    let saved = ConnectionSecretFields {
        save_password: true,
        password: "db-secret".to_string(),
        transport_layers: vec![
            TransportLayerSecrets::Ssh {
                id: "hop".to_string(),
                password: "hop-pw".to_string(),
                key_passphrase: String::new(),
            },
            TransportLayerSecrets::Proxy { id: "legacy-proxy".to_string(), password: "proxy-pw".to_string() },
            TransportLayerSecrets::HttpTunnel { id: "edge".to_string(), token: "edge-token".to_string() },
        ],
        redis_sentinel_password: String::new(),
        url_params: Some("sslmode=require".to_string()),
        connection_string: None,
        init_script: Some("SET search_path = app".to_string()),
    };
    // Whatever the store held before: stale credentials of older layouts.
    let mut store = vec![
        pair("ssh_password", "stale"),
        pair("proxy_password", "stale-proxy"),
        pair(&ssh_tunnel_password_key(0, "hop"), "stale-hop"),
        pair("transport_layers.old.ssh_password", "stale-layer"),
        pair("connection_string", "stale-connection"),
    ];
    apply_writes(&mut store, &connection_secret_write_plan(&saved));
    let sanitized = sanitized_connection_fields(&saved);
    assert_eq!(sanitized.password, "");
    assert_eq!(sanitized.url_params, None);
    assert_eq!(
        sanitized.transport_layers[0],
        TransportLayerSecrets::Ssh { id: "hop".to_string(), password: String::new(), key_passphrase: String::new() }
    );
    let loaded = load_connection_fields(&sanitized, &store);
    assert_eq!(loaded, saved);
}

#[test]
fn legacy_tunnel_profiles_move_their_credentials() {
    let tunnels = vec![
        ("t1".to_string(), TransportLayerSecrets::Proxy { id: "p".to_string(), password: "pw".to_string() }),
        ("t2".to_string(), TransportLayerSecrets::HttpTunnel { id: "h".to_string(), token: String::new() }),
    ];
    let moves = plan_tunnel_profile_moves(&tunnels);
    assert_eq!(
        moves,
        vec![
            (
                "tunnel_profile.t1".to_string(),
                TransportLayerSecrets::Proxy { id: "p".to_string(), password: String::new() },
                true,
            ),
            (
                "tunnel_profile.t2".to_string(),
                TransportLayerSecrets::HttpTunnel { id: "h".to_string(), token: String::new() },
                false,
            ),
        ]
    );
}

#[test]
fn an_unsaved_password_loads_back_empty() {
    let mut saved = bare_fields(Vec::new());
    saved.save_password = false;
    saved.password = "typed-but-not-saved".to_string();
    let mut store = vec![pair("password", "stored-earlier")];
    apply_writes(&mut store, &connection_secret_write_plan(&saved));
    assert_eq!(find_stored_secret(&store, "password"), None);
    let loaded = load_connection_fields(&sanitized_connection_fields(&saved), &store);
    assert!(!loaded.save_password);
    assert_eq!(loaded.password, "");
}

#[test]
fn mcp_connection_changes_are_refused_in_order() {
    assert_eq!(
        mcp_connection_change_allowed(true, false, "c"),
        Err("MCP_READ_ONLY: DBX global MCP read-only mode is enabled. Connection changes are blocked.".to_string())
    );
    assert_eq!(
        mcp_connection_change_allowed(false, false, "c"),
        Err("CONNECTION_OUT_OF_SCOPE: connection 'c' is not allowed by the current DBX MCP policy".to_string())
    );
    assert_eq!(mcp_connection_change_allowed(false, true, "c"), Ok(()));
}
