use dbx_storage::secret_writes::{
    connection_secret_write_plan, plugin_secret_write_plan, sync_credential_write_plan, ConnectionSecretFields, SecretWrite,
    TransportLayerSecrets,
};

fn put(k: &str, v: &str) -> SecretWrite {
    SecretWrite::Put(k.to_string(), v.to_string())
}

fn fields(save_password: bool) -> ConnectionSecretFields {
    ConnectionSecretFields {
        save_password,
        password: "pw".to_string(),
        transport_layers: vec![
            TransportLayerSecrets::Ssh { id: "jump".to_string(), password: "sp".to_string(), key_passphrase: String::new() },
            TransportLayerSecrets::Proxy { id: " ".to_string(), password: "pp".to_string() },
            TransportLayerSecrets::HttpTunnel { id: "t".to_string(), token: "tok".to_string() },
        ],
        redis_sentinel_password: String::new(),
        url_params: Some("sslmode=require".to_string()),
        connection_string: None,
        init_script: Some("SET x = 1".to_string()),
    }
}

#[test]
fn saving_a_connection_writes_each_secret_under_its_key() {
    assert_eq!(
        connection_secret_write_plan(&fields(true)),
        vec![
            put("password", "pw"),
            SecretWrite::RemovePrefix("transport_layers.".to_string()),
            put("transport_layers.jump.ssh_password", "sp"),
            put("transport_layers.jump.ssh_key_passphrase", ""),
            put("transport_layers.1.proxy_password", "pp"),
            put("transport_layers.t.http_tunnel_token", "tok"),
            put("redis_sentinel_password", ""),
            put("url_params", "sslmode=require"),
            put("ssh_password", ""),
            put("ssh_key_passphrase", ""),
            put("proxy_password", ""),
            SecretWrite::RemovePrefix("ssh_tunnels.".to_string()),
            SecretWrite::Remove("connection_string".to_string()),
            put("init_script", "SET x = 1"),
        ]
    );
}

#[test]
fn unsaved_password_is_removed() {
    let plan = connection_secret_write_plan(&fields(false));
    assert_eq!(plan[0], put("password", ""));
    assert!(!plan.iter().any(|w| matches!(w, SecretWrite::Put(k, v) if k == "password" && !v.is_empty())));
}

#[test]
fn plugin_secrets_skip_blank_names() {
    let secrets = vec![("token".to_string(), "t".to_string()), (String::new(), "x".to_string())];
    assert_eq!(
        plugin_secret_write_plan("plugin.", &secrets),
        vec![SecretWrite::RemovePrefix("plugin.".to_string()), put("plugin.token", "t")]
    );
}

#[test]
fn synced_credentials_replace_stored_webdav_passwords() {
    let credentials = vec![("acct".to_string(), "{\"c\":1}".to_string()), ("b".to_string(), "x".to_string())];
    assert_eq!(
        sync_credential_write_plan(&credentials),
        Ok(vec![
            SecretWrite::RemovePrefix("webdav_password.".to_string()),
            put("webdav_password.acct", "{\"c\":1}"),
            put("webdav_password.b", "x"),
        ])
    );
    let blank = vec![("ok".to_string(), "x".to_string()), ("  ".to_string(), "y".to_string())];
    assert_eq!(sync_credential_write_plan(&blank), Err("Synced credential account must not be empty".to_string()));
}
