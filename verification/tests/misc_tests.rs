use dbx_storage::cache::{
    decide_state_swap, entries_in_eviction_order, plan_tab_runtime_cache_prune, schema_cache_owner, SchemaCachePolicy, StateSwap,
};
use dbx_storage::secrets::{
    transport_layer_secret_lookup, webdav_password_accounts, LayerSecret,
    ssh_tunnel_key_passphrase_key, ssh_tunnel_password_key, transport_layer_http_tunnel_token_key,
    transport_layer_proxy_password_key, transport_layer_ssh_key_passphrase_key, transport_layer_ssh_password_key,
    usize_decimal,
};
use dbx_storage::storage::{
    classify_db_file, source_import_verdict, target_import_action, user_data_tables, DataDbImportResult,
    restricted_db_file_mode, sqlite_file_set, SecretKeyPolicy, SqliteDbFileState, Storage, TargetImportAction,
    WriteKeyDecision,
};
use dbx_storage::text::{canonical_ids, char_is_white_space, str_contains, str_starts_with, trim_chars};

#[test]
fn whitespace_matches_std() {
    for u in 0u32..0x3100 {
        if let Some(c) = char::from_u32(u) {
            assert_eq!(char_is_white_space(c), c.is_whitespace(), "char {u:#x}");
        }
    }
    for s in ["  a b\t", "\u{3000}x\u{85}", "", "   ", "abc"] {
        let chars: Vec<char> = s.chars().collect();
        let trimmed: String = trim_chars(&chars).into_iter().collect();
        assert_eq!(trimmed, s.trim());
    }
}

#[test]
fn canonical_ids_sort_like_std() {
    let ids: Vec<String> = ["b", " a", "é", "Z", "a", "", "ab", "😀", "z"].iter().map(|s| s.to_string()).collect();
    let mut expected: Vec<String> = ids.iter().map(|s| s.trim().to_string()).filter(|s| !s.is_empty()).collect();
    expected.sort();
    expected.dedup();
    assert_eq!(canonical_ids(&ids), expected);
}

#[test]
fn substring_search_matches_std() {
    for (s, p) in [("abc", "b"), ("abc", ""), ("", "a"), ("aab", "ab"), ("abc", "abcd"), ("xyz", "yz")] {
        assert_eq!(str_contains(s, p), s.contains(p));
        assert_eq!(str_starts_with(s, p), s.starts_with(p));
    }
}

#[test]
fn decimal_matches_to_string() {
    for n in [0usize, 7, 10, 99, 100, 12345, usize::MAX] {
        assert_eq!(usize_decimal(n), n.to_string());
    }
}

#[test]
fn secret_key_names() {
    assert_eq!(ssh_tunnel_password_key(2, "  "), "ssh_tunnels.2.password");
    assert_eq!(ssh_tunnel_key_passphrase_key(0, " hop "), "ssh_tunnels. hop .key_passphrase");
    assert_eq!(transport_layer_ssh_password_key(1, " l1 "), "transport_layers.l1.ssh_password");
    assert_eq!(transport_layer_ssh_key_passphrase_key(3, ""), "transport_layers.3.ssh_key_passphrase");
    assert_eq!(transport_layer_proxy_password_key(0, "p"), "transport_layers.p.proxy_password");
    assert_eq!(transport_layer_http_tunnel_token_key(0, "h"), "transport_layers.h.http_tunnel_token");
}

#[test]
fn schema_cache_keys_name_their_owner() {
    assert_eq!(schema_cache_owner("object-ddl:v1:conn-a:db:public:old::TABLE:"), "conn-a");
    assert_eq!(schema_cache_owner("object-meta:v1:c"), "c");
    assert_eq!(schema_cache_owner("object-meta:v1:"), "");
    assert_eq!(schema_cache_owner("object-meta:v1"), "");
    assert_eq!(schema_cache_owner("object-ddl:v2:c"), "");
    assert_eq!(schema_cache_owner("other:v1:c"), "");
    let policy = SchemaCachePolicy::defaults();
    assert_eq!(policy.max_total_bytes, 256 * 1024 * 1024);
    assert_eq!(policy.expires_before(100), 100 - 86_400_000);
    assert_eq!(policy.expires_before(i64::MIN), i64::MIN);
    assert!(policy.within_limits(50_000, 10));
    assert!(!policy.within_limits(50_001, 10));
    assert_eq!(policy.connection_byte_limit(), 64 * 1024 * 1024);
    let negative = SchemaCachePolicy { max_connection_bytes: -5, ..SchemaCachePolicy::defaults() };
    assert_eq!(negative.connection_byte_limit(), 0);
}

#[test]
fn state_swaps_need_the_expected_version() {
    assert_eq!(decide_state_swap(None, None), StateSwap::Insert);
    assert_eq!(decide_state_swap(Some(3), Some(3)), StateSwap::Update(3));
    assert_eq!(decide_state_swap(Some(3), Some(2)), StateSwap::Reject);
    assert_eq!(decide_state_swap(None, Some(1)), StateSwap::Reject);
    assert_eq!(decide_state_swap(Some(1), None), StateSwap::Reject);
}

#[test]
fn tab_cache_prune_expires_then_evicts_to_budget() {
    let e = |k: &str, bytes: i64, created: i64, accessed: i64| (k.to_string(), bytes, created, accessed);
    let entries = vec![
        e("old-orphan", 10, 0, 0),
        e("live", 100, 0, 1),
        e("stale", 20, 900, 300),
        e("young-orphan", 30, 950, 960),
        e("recent", 40, 990, 995),
    ];
    assert!(entries_in_eviction_order(&entries));
    assert!(!entries_in_eviction_order(&vec![e("b", 1, 0, 5), e("a", 1, 0, 5)]));
    assert!(entries_in_eviction_order(&vec![e("a", 1, 0, 5), e("b", 1, 0, 5)]));
    let live = vec!["live".to_string()];
    let (deleted, result) = plan_tab_runtime_cache_prune(&entries, &live, 150, 100, Some(500), 1000);
    let mut deleted = deleted;
    deleted.sort();
    assert_eq!(deleted, vec!["old-orphan", "stale", "young-orphan"]);
    assert_eq!(result.deleted_entries, 3);
    assert_eq!(result.orphan_deletions, 2);
    assert_eq!(result.deleted_bytes, 60);
    assert_eq!(result.remaining_entries, 2);
    assert_eq!(result.remaining_bytes, 140);
    let (deleted, result) = plan_tab_runtime_cache_prune(&entries, &live, 1000, 10_000, None, 1000);
    assert!(deleted.is_empty());
    assert_eq!(result.remaining_bytes, 200);
    let (deleted, result) = plan_tab_runtime_cache_prune(&entries, &live, -5, 10_000, None, 1000);
    assert_eq!(deleted.len(), 4);
    assert_eq!(result.remaining_bytes, 100);
}

#[test]
fn import_user_data_db_skips_invalid_source_file() {
    let contents = b"not sqlite";
    let has_header = contents.starts_with(b"SQLite format 3\0");
    let state = classify_db_file(true, contents.len() as u64, has_header);
    assert_eq!(state, SqliteDbFileState::Invalid);
    assert_eq!(source_import_verdict(true, true, state, false), Some(DataDbImportResult::SkippedInvalidSource));
}

#[test]
fn import_never_overwrites_user_data() {
    assert_eq!(source_import_verdict(false, false, SqliteDbFileState::Missing, false), Some(DataDbImportResult::SkippedNoSource));
    assert_eq!(source_import_verdict(true, true, SqliteDbFileState::Valid, false), Some(DataDbImportResult::SkippedSourceEmpty));
    assert_eq!(source_import_verdict(true, true, SqliteDbFileState::Valid, true), None);
    assert_eq!(classify_db_file(true, 0, false), SqliteDbFileState::Empty);
    assert_eq!(classify_db_file(false, 5, true), SqliteDbFileState::Missing);
    assert_eq!(target_import_action(SqliteDbFileState::Missing, false), TargetImportAction::Import);
    assert_eq!(target_import_action(SqliteDbFileState::Empty, false), TargetImportAction::ReplaceThenImport);
    assert_eq!(
        target_import_action(SqliteDbFileState::Valid, true),
        TargetImportAction::Skip(DataDbImportResult::SkippedTargetHasData)
    );
    assert_eq!(
        target_import_action(SqliteDbFileState::Invalid, false),
        TargetImportAction::Skip(DataDbImportResult::SkippedInvalidTarget)
    );
    assert_eq!(user_data_tables().len(), 18);
}

#[test]
fn storage_builders_and_data_dir() {
    let s = Storage::from_db_path("/data/dbx/dbx.db".to_string());
    assert_eq!(s.secret_key_policy(), SecretKeyPolicy::PlatformDefault);
    assert!(s.secret_key_creation_allowed());
    assert_eq!(s.data_dir(), "/data/dbx");
    let s = s.with_secret_key_creation(false).require_persistent_secret_key();
    assert_eq!(s.secret_key_policy(), SecretKeyPolicy::ExternalOnly);
    assert!(!s.secret_key_creation_allowed());
    let s = s.with_secret_key_policy(SecretKeyPolicy::ManagedDataDir);
    assert_eq!(s.secret_key_policy(), SecretKeyPolicy::ManagedDataDir);
    assert_eq!(s.db_path(), "/data/dbx/dbx.db");
    assert_eq!(Storage::from_db_path("dbx.db".to_string()).data_dir(), "");
    assert_eq!(Storage::from_db_path(String::new()).data_dir(), ".");
    assert_eq!(Storage::data_dir_from_parent(None), ".");
}

#[test]
fn webdav_accounts_merge_keys_and_legacy_sorted() {
    let keys: Vec<String> = ["webdav_password.bob", "webdav_password.", "other.alice", "webdav_password.alice", "webdav_password.bob"]
        .iter()
        .map(|s| s.to_string())
        .collect();
    let legacy: Vec<String> = ["carol", "alice"].iter().map(|s| s.to_string()).collect();
    assert_eq!(webdav_password_accounts(&keys, &legacy), vec!["alice".to_string(), "bob".to_string(), "carol".to_string()]);
    assert!(webdav_password_accounts(&[], &[]).is_empty());
    let upper = vec!["WEBDAV_PASSWORD.x".to_string()];
    assert!(webdav_password_accounts(&upper, &[]).is_empty());
}

#[test]
fn write_key_decision_provisions_only_without_ciphertext() {
    let storage = Storage::from_db_path("/tmp/dbx/dbx.db".to_string());
    assert_eq!(storage.write_key_decision(None, true, None), WriteKeyDecision::UseOpened);
    assert_eq!(
        storage.write_key_decision(Some("SECRET_KEY_MISMATCH"), true, None),
        WriteKeyDecision::Fail("SECRET_KEY_MISMATCH".to_string())
    );
    assert_eq!(storage.write_key_decision(Some("MISSING_MANAGED_KEY"), false, None), WriteKeyDecision::Unkeyed);
    assert_eq!(storage.write_key_decision(Some("KEY_PROVIDER_UNAVAILABLE"), true, None), WriteKeyDecision::CheckCiphertext);
    assert_eq!(
        storage.write_key_decision(Some("MISSING_EXTERNAL_KEY"), true, Some(true)),
        WriteKeyDecision::Fail("ENCRYPTED_DATA_KEY_MISSING".to_string())
    );
    assert_eq!(storage.write_key_decision(Some("MISSING_MANAGED_KEY"), true, Some(false)), WriteKeyDecision::CreateKey);
    let locked = storage.with_secret_key_creation(false);
    assert_eq!(
        locked.write_key_decision(Some("MISSING_MANAGED_KEY"), true, Some(false)),
        WriteKeyDecision::Fail("MISSING_MANAGED_KEY".to_string())
    );
}

#[test]
fn sqlite_sidecar_files_append_to_the_name() {
    assert_eq!(
        sqlite_file_set("/data/dbx.db"),
        vec!["/data/dbx.db", "/data/dbx.db-journal", "/data/dbx.db-wal", "/data/dbx.db-shm"]
    );
}

#[test]
fn database_files_never_keep_world_bits() {
    assert_eq!(restricted_db_file_mode(Some(0o755), 0o100644), Some(0o600));
    assert_eq!(restricted_db_file_mode(Some(0o775), 0o100664), Some(0o660));
    assert_eq!(restricted_db_file_mode(None, 0o644), Some(0o600));
    assert_eq!(restricted_db_file_mode(Some(0o700), 0o600), None);
    assert_eq!(restricted_db_file_mode(Some(0o2770), 0o660), None);
    assert_eq!(restricted_db_file_mode(Some(0o755), 0o666), Some(0o600));
}

#[test]
fn transport_layer_secrets_fall_back_to_older_keys() {
    assert_eq!(
        transport_layer_secret_lookup(LayerSecret::SshPassword, 0, "legacy"),
        vec!["transport_layers.legacy.ssh_password", "ssh_password"]
    );
    assert_eq!(
        transport_layer_secret_lookup(LayerSecret::SshKeyPassphrase, 2, " "),
        vec!["transport_layers.2.ssh_key_passphrase", "ssh_tunnels.2.key_passphrase"]
    );
    assert_eq!(
        transport_layer_secret_lookup(LayerSecret::SshPassword, 1, " hop "),
        vec!["transport_layers.hop.ssh_password", "ssh_tunnels. hop .password"]
    );
    assert_eq!(
        transport_layer_secret_lookup(LayerSecret::ProxyPassword, 0, "legacy-proxy"),
        vec!["transport_layers.legacy-proxy.proxy_password", "proxy_password"]
    );
    assert_eq!(transport_layer_secret_lookup(LayerSecret::ProxyPassword, 3, "p"), vec!["transport_layers.p.proxy_password"]);
    assert_eq!(
        transport_layer_secret_lookup(LayerSecret::HttpTunnelToken, 4, ""),
        vec!["transport_layers.4.http_tunnel_token"]
    );
}
