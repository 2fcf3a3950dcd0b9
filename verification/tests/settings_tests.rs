use dbx_storage::json::{JsonNumber, JsonValue};
use dbx_storage::settings::{
    apply_desktop_settings, clear_snippet_pending_cleanup_if_matches, default_metadata_cache_max_memory_mb,
    load_snippet_pending_cleanup, default_sidebar_table_page_size,
    forget_plugin_permissions, keep_dedicated_settings, load_desktop_settings_from, load_pinned_tree_node_ids,
    load_plugin_data_grants, load_snippet_sync_id, normalize_metadata_cache_max_memory_mb, normalized_setting_id,
    normalized_string_list, pending_cleanup_matches, remove_pending_cleanup, required_snippet_state_value,
    save_pinned_tree_node_ids, save_snippet_migration_state, save_snippet_sync_id, set_ai_plugin_tool_plugin_enabled,
    save_count_setting, set_plugin_data_grant, stored_u32, stored_u32_saturating, stored_usize, validate_ai_global_custom_instructions,
    validate_snippet_pending_cleanup, DesktopIconTheme, DesktopSettings, McpHttpServerSettings, SnippetPendingCleanup,
    WebMcpSettings,
};

fn text(s: &str) -> JsonValue {
    JsonValue::Text(s.to_string())
}

fn num(n: u64) -> JsonValue {
    JsonValue::Number(JsonNumber::PosInt(n))
}

fn get<'a>(settings: &'a [(String, JsonValue)], key: &str) -> Option<&'a JsonValue> {
    settings.iter().rev().find(|(k, _)| k == key).map(|(_, v)| v)
}

fn texts(v: &JsonValue) -> Vec<String> {
    match v {
        JsonValue::Array(items) => items
            .iter()
            .map(|i| match i {
                JsonValue::Text(t) => t.clone(),
                other => panic!("not a string: {other:?}"),
            })
            .collect(),
        other => panic!("not an array: {other:?}"),
    }
}

#[test]
fn metadata_cache_memory_budget_is_bounded() {
    assert_eq!(normalize_metadata_cache_max_memory_mb(1), 16);
    assert_eq!(normalize_metadata_cache_max_memory_mb(256), 256);
    assert_eq!(normalize_metadata_cache_max_memory_mb(512), 512);
    assert_eq!(normalize_metadata_cache_max_memory_mb(513), 64);
}

#[test]
fn metadata_cache_budget_edges_and_idempotence() {
    assert_eq!(default_metadata_cache_max_memory_mb(), 64);
    assert_eq!(normalize_metadata_cache_max_memory_mb(0), 16);
    assert_eq!(normalize_metadata_cache_max_memory_mb(16), 16);
    assert_eq!(normalize_metadata_cache_max_memory_mb(usize::MAX), 64);
    for v in [0, 1, 15, 16, 17, 300, 511, 512, 513, 100_000] {
        let once = normalize_metadata_cache_max_memory_mb(v);
        assert_eq!(normalize_metadata_cache_max_memory_mb(once), once);
    }
    assert_eq!(default_sidebar_table_page_size(), 1000);
}

#[test]
fn desktop_settings_defaults_from_empty_settings() {
    let loaded = load_desktop_settings_from(&[], None, 3);
    assert_eq!(loaded, DesktopSettings::defaults(3));
    assert!(loaded.show_tray_icon);
    assert_eq!(loaded.icon_theme, DesktopIconTheme::Default);
    assert_eq!(loaded.sidebar_table_page_size, 1000);
}

#[test]
fn desktop_settings_fall_back_to_run_in_background() {
    let settings = vec![("run_in_background".to_string(), JsonValue::Bool(false))];
    let loaded = load_desktop_settings_from(&settings, None, 2);
    assert!(!loaded.show_tray_icon);
    let settings = vec![
        ("run_in_background".to_string(), JsonValue::Bool(false)),
        ("show_tray_icon".to_string(), JsonValue::Bool(true)),
    ];
    assert!(load_desktop_settings_from(&settings, None, 2).show_tray_icon);
}

#[test]
fn desktop_settings_round_trip_normalizes() {
    let mut d = DesktopSettings::defaults(4);
    d.show_tray_icon = false;
    d.icon_theme = DesktopIconTheme::Black;
    d.quit_on_close = true;
    d.metadata_cache_max_memory_mb = 9999;
    d.saved_sql_sync_dir = Some("  /sync  ".to_string());
    d.driver_store_dir = Some("   ".to_string());
    d.custom_ai_skill_root_enabled = true;
    d.custom_ai_skill_root = Some("/skills".to_string());
    d.sidebar_table_page_size = 250;
    let mut settings = vec![
        ("run_in_background".to_string(), JsonValue::Bool(true)),
        ("driver_store_dir".to_string(), text("/old")),
        ("unrelated".to_string(), num(7)),
    ];
    apply_desktop_settings(&mut settings, &d, 6);
    assert!(get(&settings, "run_in_background").is_none());
    assert!(get(&settings, "driver_store_dir").is_none());
    assert_eq!(get(&settings, "icon_theme"), Some(&text("black")));
    assert_eq!(get(&settings, "metadata_cache_max_memory_mb"), Some(&num(64)));
    assert_eq!(get(&settings, "duckdb_worker_max_processes"), Some(&num(6)));
    assert_eq!(get(&settings, "saved_sql_sync_dir"), Some(&text("  /sync  ")));
    assert_eq!(get(&settings, "unrelated"), Some(&num(7)));
    let loaded = load_desktop_settings_from(&settings, Some(6), 1);
    assert!(!loaded.show_tray_icon);
    assert_eq!(loaded.icon_theme, DesktopIconTheme::Black);
    assert!(loaded.quit_on_close);
    assert_eq!(loaded.metadata_cache_max_memory_mb, 64);
    assert_eq!(loaded.duckdb_worker_max_processes, 6);
    assert_eq!(loaded.saved_sql_sync_dir.as_deref(), Some("/sync"));
    assert_eq!(loaded.driver_store_dir, None);
    assert_eq!(loaded.custom_ai_skill_root.as_deref(), Some("/skills"));
    assert!(loaded.custom_ai_skill_root_enabled);
    assert_eq!(loaded.sidebar_table_page_size, 250);
}

#[test]
fn stored_numbers_are_read_strictly() {
    let settings = vec![
        ("a".to_string(), num(u64::MAX)),
        ("b".to_string(), JsonValue::Number(JsonNumber::NegInt(-1))),
        ("c".to_string(), text("200")),
        ("d".to_string(), num(200)),
    ];
    assert_eq!(stored_u32(&settings, "a"), None);
    assert_eq!(stored_u32_saturating(&settings, "a"), Some(u32::MAX));
    assert_eq!(stored_u32(&settings, "b"), None);
    assert_eq!(stored_u32(&settings, "c"), None);
    assert_eq!(stored_u32(&settings, "d"), Some(200));
    assert_eq!(stored_usize(&settings, "d"), Some(200));
    assert_eq!(stored_u32(&settings, "missing"), None);
    let mut saved = settings;
    save_count_setting(&mut saved, "d", 7);
    save_count_setting(&mut saved, "new", 3);
    assert_eq!(stored_u32(&saved, "d"), Some(7));
    assert_eq!(stored_u32(&saved, "new"), Some(3));
    assert_eq!(stored_u32(&saved, "c"), None);
}

#[test]
fn string_lists_are_trimmed_sorted_and_deduplicated() {
    let value = JsonValue::Array(vec![text(" b "), text("a"), text(""), num(3), text("b"), text("  ")]);
    assert_eq!(normalized_string_list(Some(&value)), vec!["a".to_string(), "b".to_string()]);
    assert!(normalized_string_list(Some(&text("a"))).is_empty());
    assert!(normalized_string_list(None).is_empty());
}

#[test]
fn setting_ids_are_trimmed_and_bounded() {
    assert_eq!(normalized_setting_id("  p1 ", "plugin id").unwrap(), "p1");
    assert_eq!(normalized_setting_id("   ", "plugin id").unwrap_err(), "A valid plugin id is required");
    let long = "x".repeat(257);
    assert!(normalized_setting_id(&long, "plugin id").is_err());
    assert!(normalized_setting_id(&"x".repeat(256), "plugin id").is_ok());
}

#[test]
fn plugin_tool_access_toggles() {
    let mut settings = vec![(
        "ai_plugin_tool_plugins".to_string(),
        JsonValue::Array(vec![text("zeta"), text(" alpha ")]),
    )];
    let ids = set_ai_plugin_tool_plugin_enabled(&mut settings, " beta ", true).unwrap();
    assert_eq!(ids, vec!["alpha", "beta", "zeta"]);
    assert_eq!(texts(get(&settings, "ai_plugin_tool_plugins").unwrap()), ids);
    let ids = set_ai_plugin_tool_plugin_enabled(&mut settings, "alpha", false).unwrap();
    assert_eq!(ids, vec!["beta", "zeta"]);
    let before = format!("{settings:?}");
    assert!(set_ai_plugin_tool_plugin_enabled(&mut settings, "  ", true).is_err());
    assert_eq!(format!("{settings:?}"), before);
}

#[test]
fn plugin_data_grants_are_recorded_and_revoked() {
    let mut settings: Vec<(String, JsonValue)> = Vec::new();
    assert_eq!(set_plugin_data_grant(&mut settings, "p", "c2", true).unwrap(), vec!["c2"]);
    assert_eq!(set_plugin_data_grant(&mut settings, "p", " c1 ", true).unwrap(), vec!["c1", "c2"]);
    assert_eq!(load_plugin_data_grants(&settings, " p "), vec!["c1", "c2"]);
    assert_eq!(set_plugin_data_grant(&mut settings, "q", "c1", true).unwrap(), vec!["c1"]);
    assert_eq!(set_plugin_data_grant(&mut settings, "p", "c1", false).unwrap(), vec!["c2"]);
    assert_eq!(set_plugin_data_grant(&mut settings, "p", "c2", false).unwrap(), Vec::<String>::new());
    assert!(load_plugin_data_grants(&settings, "p").is_empty());
    assert_eq!(load_plugin_data_grants(&settings, "q"), vec!["c1"]);
    assert_eq!(set_plugin_data_grant(&mut settings, "q", "c1", false).unwrap(), Vec::<String>::new());
    assert!(get(&settings, "plugin_data_grants").is_none());
    assert_eq!(set_plugin_data_grant(&mut settings, " ", "c", true).unwrap_err(), "A valid plugin id is required");
    assert_eq!(set_plugin_data_grant(&mut settings, "p", "", true).unwrap_err(), "A valid connection id is required");
}

#[test]
fn plugin_data_grants_are_capped() {
    let mut settings: Vec<(String, JsonValue)> = Vec::new();
    let grants: Vec<JsonValue> = (0..512).map(|i| text(&format!("c{i:04}"))).collect();
    settings.push((
        "plugin_data_grants".to_string(),
        JsonValue::Object(vec![("p".to_string(), JsonValue::Array(grants))]),
    ));
    let err = set_plugin_data_grant(&mut settings, "p", "new", true).unwrap_err();
    assert_eq!(err, "A plugin can hold at most 512 data access grants");
    // Re-granting an existing connection replaces it rather than adding one.
    assert_eq!(set_plugin_data_grant(&mut settings, "p", "c0000", true).unwrap().len(), 512);
    assert_eq!(set_plugin_data_grant(&mut settings, "p", "c0001", false).unwrap().len(), 511);
    assert_eq!(set_plugin_data_grant(&mut settings, "p", "new", true).unwrap().len(), 512);
}

#[test]
fn forgetting_a_plugin_drops_its_permissions() {
    let mut settings = vec![
        ("ai_plugin_tool_plugins".to_string(), JsonValue::Array(vec![text("p"), text("q")])),
        (
            "plugin_data_grants".to_string(),
            JsonValue::Object(vec![
                ("p".to_string(), JsonValue::Array(vec![text("c")])),
                ("q".to_string(), JsonValue::Array(vec![text("d")])),
            ]),
        ),
    ];
    forget_plugin_permissions(&mut settings, " p ").unwrap();
    assert_eq!(texts(get(&settings, "ai_plugin_tool_plugins").unwrap()), vec!["q"]);
    assert!(load_plugin_data_grants(&settings, "p").is_empty());
    assert_eq!(load_plugin_data_grants(&settings, "q"), vec!["d"]);
    assert!(forget_plugin_permissions(&mut settings, "").is_err());
}

#[test]
fn dedicated_keys_keep_their_stored_values() {
    let mut stale = vec![
        ("max_retries".to_string(), num(1)),
        ("history_retention_limit".to_string(), num(200)),
        ("password_hash".to_string(), text("h")),
    ];
    let current = vec![
        ("max_retries".to_string(), num(5)),
        ("web_mcp_settings".to_string(), JsonValue::Bool(true)),
        ("password_hash".to_string(), text("old")),
    ];
    keep_dedicated_settings(&mut stale, Some(current));
    assert_eq!(get(&stale, "max_retries"), Some(&num(5)));
    assert_eq!(get(&stale, "web_mcp_settings"), Some(&JsonValue::Bool(true)));
    assert!(get(&stale, "history_retention_limit").is_none());
    assert_eq!(get(&stale, "password_hash"), Some(&text("h")));
    let mut fresh = vec![("max_retries".to_string(), num(1))];
    keep_dedicated_settings(&mut fresh, None);
    assert!(get(&fresh, "max_retries").is_none());
}

#[test]
fn snippet_sync_state_is_validated_and_stored() {
    assert_eq!(required_snippet_state_value("  id ", "snippet id").unwrap(), "id");
    assert_eq!(required_snippet_state_value("  ", "snippet id").unwrap_err(), "snippet id cannot be empty");
    let bad = SnippetPendingCleanup { snippet_id: " ".to_string(), expected_content_hash: "h".to_string() };
    assert_eq!(validate_snippet_pending_cleanup(bad).unwrap_err(), "legacy snippet id cannot be empty");
    let bad = SnippetPendingCleanup { snippet_id: "s".to_string(), expected_content_hash: "".to_string() };
    assert_eq!(validate_snippet_pending_cleanup(bad).unwrap_err(), "legacy content hash cannot be empty");
    let ok = SnippetPendingCleanup { snippet_id: " s ".to_string(), expected_content_hash: " h".to_string() };
    let ok = validate_snippet_pending_cleanup(ok).unwrap();
    assert_eq!(ok.snippet_id, "s");
    assert_eq!(ok.expected_content_hash, "h");

    let mut settings: Vec<(String, JsonValue)> = Vec::new();
    save_snippet_sync_id(&mut settings, "github", Some("  gist1 "));
    assert_eq!(load_snippet_sync_id(&settings, "github").as_deref(), Some("gist1"));
    save_snippet_sync_id(&mut settings, "github", Some("  "));
    assert_eq!(load_snippet_sync_id(&settings, "github"), None);
    assert!(save_snippet_migration_state(&mut settings, "github", "new", "", "hash").is_err());
    save_snippet_migration_state(&mut settings, "github", " new ", " old ", " hash ").unwrap();
    assert_eq!(load_snippet_sync_id(&settings, "github").as_deref(), Some("new"));
    let expected = SnippetPendingCleanup { snippet_id: "old".to_string(), expected_content_hash: "hash".to_string() };
    assert!(pending_cleanup_matches(&Some(expected.clone()), &expected));
    assert!(!pending_cleanup_matches(&None, &expected));
    remove_pending_cleanup(&mut settings, "github");
    match get(&settings, "snippet_pending_legacy_cleanups") {
        Some(JsonValue::Object(m)) => assert!(m.is_empty()),
        other => panic!("unexpected {other:?}"),
    }
}

#[test]
fn global_instructions_are_trimmed_and_limited() {
    assert_eq!(validate_ai_global_custom_instructions("  hi  ").unwrap(), "hi");
    assert!(validate_ai_global_custom_instructions(&"é".repeat(8000)).is_ok());
    assert_eq!(
        validate_ai_global_custom_instructions(&"a".repeat(8001)).unwrap_err(),
        "global instructions too long (max 8000 chars)"
    );
}

#[test]
fn pinned_ids_round_trip() {
    let mut settings: Vec<(String, JsonValue)> = Vec::new();
    assert!(load_pinned_tree_node_ids(&settings).is_empty());
    save_pinned_tree_node_ids(&mut settings, &["b".to_string(), "a".to_string()]);
    assert_eq!(load_pinned_tree_node_ids(&settings), vec!["b", "a"]);
    let settings = vec![("pinned_tree_node_ids".to_string(), JsonValue::Array(vec![text("x"), num(1)]))];
    assert_eq!(load_pinned_tree_node_ids(&settings), vec!["x"]);
}

#[test]
fn mcp_server_settings_defaults() {
    let http = McpHttpServerSettings::defaults();
    assert!(!http.enabled);
    assert_eq!(http.host, "127.0.0.1");
    assert_eq!(http.port, 5225);
    assert_eq!(http.path, "/mcp");
    let web = WebMcpSettings::defaults();
    assert!(!web.enabled && web.allowed_hosts.is_empty() && web.allowed_origins.is_empty());
}

#[test]
fn pending_snippet_cleanup_survives_restart_and_clears_only_when_matched() {
    let mut settings: Vec<(String, JsonValue)> = Vec::new();
    save_snippet_migration_state(&mut settings, "github", "replacement-id", "legacy-id", "content-hash").unwrap();
    let pending = SnippetPendingCleanup {
        snippet_id: "legacy-id".to_string(),
        expected_content_hash: "content-hash".to_string(),
    };
    let other = SnippetPendingCleanup { snippet_id: "legacy-id".to_string(), expected_content_hash: "other".to_string() };
    assert_eq!(clear_snippet_pending_cleanup_if_matches(&mut settings, "github", &other), Ok(false));
    assert_eq!(load_snippet_pending_cleanup(&settings, "github"), Ok(Some(pending.clone())));
    assert_eq!(clear_snippet_pending_cleanup_if_matches(&mut settings, "github", &pending), Ok(true));
    assert_eq!(load_snippet_pending_cleanup(&settings, "github"), Ok(None));
    assert_eq!(load_snippet_sync_id(&settings, "github"), Some("replacement-id".to_string()));
    assert_eq!(clear_snippet_pending_cleanup_if_matches(&mut settings, "github", &pending), Ok(false));
}

#[test]
fn unreadable_pending_cleanup_is_refused() {
    let bad = vec![(
        "snippet_pending_legacy_cleanups".to_string(),
        JsonValue::Object(vec![("github".to_string(), JsonValue::Text("x".to_string()))]),
    )];
    assert!(load_snippet_pending_cleanup(&bad, "github").unwrap_err().starts_with("invalid pending snippet cleanup state"));
    let mut copy = bad;
    let e = SnippetPendingCleanup { snippet_id: "a".to_string(), expected_content_hash: "b".to_string() };
    assert!(clear_snippet_pending_cleanup_if_matches(&mut copy, "github", &e).is_err());
    let blank = vec![(
        "snippet_pending_legacy_cleanups".to_string(),
        JsonValue::Object(vec![(
            "github".to_string(),
            JsonValue::Array(vec![JsonValue::Text(" ".to_string()), JsonValue::Text("h".to_string())]),
        )]),
    )];
    assert_eq!(load_snippet_pending_cleanup(&blank, "github"), Err("legacy snippet id cannot be empty".to_string()));
}

#[test]
fn stored_settings_must_be_an_object() {
    use_settings_from_stored();
}

fn use_settings_from_stored() {
    assert_eq!(dbx_storage::settings::app_settings_from_stored(None).unwrap().len(), 0);
    assert_eq!(
        dbx_storage::settings::app_settings_from_stored(Some(Err("expected value".to_string()))).unwrap_err(),
        "expected value"
    );
    assert_eq!(
        dbx_storage::settings::app_settings_from_stored(Some(Ok(dbx_storage::json::JsonValue::Bool(true)))).unwrap_err(),
        "app settings JSON must be an object"
    );
    let e = dbx_storage::settings::app_settings_from_stored(Some(Ok(dbx_storage::json::JsonValue::Object(vec![(
        "k".to_string(),
        dbx_storage::json::JsonValue::Null,
    )]))))
    .unwrap();
    assert_eq!(e.len(), 1);
}
