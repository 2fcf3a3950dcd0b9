use dbx_storage::fingerprint::{file_digest, lower_hex, migration_source_fingerprint, migration_source_frame};
use dbx_storage::json::{JsonNumber, JsonValue};
use dbx_storage::migration::{
    cached_migration_scan, decide_migration_start, is_migration_backup_dir_name, legacy_backup_name_allowed,
    legacy_json_backup_name, legacy_json_file_names, migration_backup_paths, migration_counts, migration_error_code,
    migration_safe_message, migration_state_from_name, migration_state_name, new_migration_backup_dir_name,
    plan_app_settings_secret_migration, plan_backup_cleanup, plan_migration_preflight, plan_migration_state_update,
    succeeded_migration_counts, validate_backup_dirs, validate_legacy_backups,
    succeeded_migration_report, sync_credential_count, KeyProbe, LegacyJsonFileStatus, MigrationKeyStatus,
    MigrationPreflight, MigrationScan, MigrationStart, MigrationState, MigrationStateRecord,
    SECRET_STORE_MIGRATION_ID, migration_backup_dir_name_from, migration_run_step, MigrationRunAction,
    MigrationRunEvent,
};
use dbx_storage::storage::SecretKeyPolicy;

fn text(s: &str) -> JsonValue {
    JsonValue::Text(s.to_string())
}

fn obj(entries: Vec<(&str, JsonValue)>) -> JsonValue {
    JsonValue::Object(entries.into_iter().map(|(k, v)| (k.to_string(), v)).collect())
}

fn get<'a>(v: &'a JsonValue, key: &str) -> Option<&'a JsonValue> {
    match v {
        JsonValue::Object(e) => e.iter().rev().find(|(k, _)| k == key).map(|(_, v)| v),
        _ => None,
    }
}

fn scan(plaintext: i64, encrypted: i64) -> MigrationScan {
    MigrationScan { plaintext, encrypted, connections: 3, plugins: 0, ai: 0, tunnels: 0, sync_credentials: 0 }
}

fn files(exists: bool) -> Vec<LegacyJsonFileStatus> {
    vec![LegacyJsonFileStatus { name: "connections.json".to_string(), exists, bytes: if exists { 10 } else { 0 } }]
}

fn probe(outcome: Result<(), &str>, decrypts: bool) -> KeyProbe {
    KeyProbe {
        outcome: outcome.map_err(|e| e.to_string()),
        source: "keyring".to_string(),
        decrypts_existing: decrypts,
    }
}

fn preflight(
    stored: MigrationStateRecord,
    scan: MigrationScan,
    legacy_file: bool,
    policy: SecretKeyPolicy,
    probe: KeyProbe,
) -> MigrationPreflight {
    plan_migration_preflight(stored, "fp", scan, files(legacy_file), policy, probe, "/data".to_string(), false, false)
}

#[test]
fn migration_backup_manifest_rejects_invalid_paths() {
    let invalid = obj(vec![("backupPaths", text("not-a-list"))]);
    assert!(migration_backup_paths(&invalid).is_err());
    let valid = obj(vec![("backupPaths", JsonValue::Array(vec![text("/tmp/dbx-secret-migration-a")]))]);
    assert_eq!(migration_backup_paths(&valid).unwrap(), vec!["/tmp/dbx-secret-migration-a"]);
}

#[test]
fn backup_paths_absent_or_not_an_object_are_empty() {
    assert!(migration_backup_paths(&obj(vec![])).unwrap().is_empty());
    assert!(migration_backup_paths(&JsonValue::Null).unwrap().is_empty());
    let mixed = obj(vec![("backupPaths", JsonValue::Array(vec![text("a"), JsonValue::Bool(true)]))]);
    assert_eq!(
        migration_backup_paths(&mixed).unwrap_err(),
        "Invalid migration backup manifest: backupPaths must be an array"
    );
}

#[test]
fn error_codes_are_classified_in_order() {
    assert_eq!(migration_error_code("x MISSING_MANAGED_KEY y"), "MISSING_MANAGED_KEY");
    assert_eq!(migration_error_code("SECRET_KEY_MISMATCH and json"), "SECRET_KEY_MISMATCH");
    assert_eq!(migration_error_code("MISSING_PERSISTENT_KEY"), "MISSING_EXTERNAL_KEY");
    assert_eq!(migration_error_code("bad JSON"), "LEGACY_JSON_INVALID");
    assert_eq!(migration_error_code("plaintext remains in row"), "VERIFICATION_FAILED");
    assert_eq!(migration_error_code("backup failed"), "BACKUP_FAILED");
    assert_eq!(migration_error_code("disk full"), "MIGRATION_FAILED");
    assert_eq!(migration_error_code(""), "MIGRATION_FAILED");
}

#[test]
fn safe_messages_never_repeat_the_failure() {
    assert_eq!(migration_safe_message("BACKUP_FAILED", "secret=hunter2"), "Could not create a migration backup");
    assert_eq!(
        migration_safe_message("SOMETHING_ELSE", "secret=hunter2"),
        "Data migration failed; your original data was preserved"
    );
}

#[test]
fn states_have_stored_names() {
    for state in [
        MigrationState::Pending,
        MigrationState::Running,
        MigrationState::Succeeded,
        MigrationState::Failed,
        MigrationState::NotRequired,
    ] {
        assert_eq!(migration_state_from_name(migration_state_name(&state)), state);
    }
    assert_eq!(migration_state_name(&MigrationState::NotRequired), "not_required");
    assert_eq!(migration_state_from_name("bogus"), MigrationState::Pending);
}

#[test]
fn fresh_profile_without_legacy_data_needs_no_migration() {
    let p = preflight(
        MigrationStateRecord::initial(),
        scan(0, 0),
        false,
        SecretKeyPolicy::PlatformDefault,
        probe(Err("MISSING_MANAGED_KEY"), true),
    );
    assert_eq!(p.state, MigrationState::NotRequired);
    assert!(!p.needs_migration);
    assert!(!p.key_creation_allowed);
    assert!(p.is_ready());
    assert_eq!(p.migration_id, SECRET_STORE_MIGRATION_ID);
    assert_eq!(p.error_code.as_deref(), Some("MISSING_MANAGED_KEY"));
    assert_eq!(
        p.error_message.as_deref(),
        Some("A managed data-directory secret key will be created when migration or first secret write starts")
    );
    assert_eq!(p.backup_dir, "/data");
}

#[test]
fn plaintext_with_missing_managed_key_may_create_one() {
    let p = preflight(
        MigrationStateRecord::initial(),
        scan(2, 0),
        false,
        SecretKeyPolicy::ManagedDataDir,
        probe(Err("MISSING_MANAGED_KEY"), true),
    );
    assert_eq!(p.state, MigrationState::Pending);
    assert!(p.needs_migration && p.backup_required);
    assert!(p.key_creation_allowed);
    assert_eq!(p.key_status, MigrationKeyStatus::WillCreate);
    assert_eq!(p.database_plaintext_count, 2);
    assert!(matches!(decide_migration_start(p), MigrationStart::Proceed));
}

#[test]
fn ciphertext_without_its_key_is_fatal() {
    let p = preflight(
        MigrationStateRecord::initial(),
        scan(1, 4),
        false,
        SecretKeyPolicy::PlatformDefault,
        probe(Err("KEY_PROVIDER_UNAVAILABLE"), true),
    );
    assert_eq!(p.error_code.as_deref(), Some("ENCRYPTED_DATA_KEY_MISSING"));
    assert_eq!(p.key_status, MigrationKeyStatus::MissingForCiphertext);
    assert!(p.needs_migration);
    assert!(!p.key_creation_allowed);
    match decide_migration_start(p) {
        MigrationStart::Refused(code) => assert_eq!(code, "ENCRYPTED_DATA_KEY_MISSING"),
        other => panic!("unexpected {other:?}"),
    }
}

#[test]
fn wrong_key_is_a_mismatch() {
    let p = preflight(
        MigrationStateRecord::initial(),
        scan(0, 4),
        false,
        SecretKeyPolicy::PlatformDefault,
        probe(Ok(()), false),
    );
    assert!(!p.key_provider_available);
    assert_eq!(p.key_status, MigrationKeyStatus::Mismatch);
    assert_eq!(p.error_code.as_deref(), Some("SECRET_KEY_MISMATCH"));
    assert_eq!(p.state, MigrationState::Pending);
}

#[test]
fn external_only_without_key_requires_one() {
    let p = preflight(
        MigrationStateRecord::initial(),
        scan(0, 0),
        true,
        SecretKeyPolicy::ExternalOnly,
        probe(Err("MISSING_EXTERNAL_KEY"), true),
    );
    assert!(p.needs_migration);
    assert!(!p.key_creation_allowed);
    assert_eq!(p.key_status, MigrationKeyStatus::Unavailable);
    assert!(matches!(decide_migration_start(p), MigrationStart::Refused(_)));
}

#[test]
fn succeeded_state_is_reopened_when_legacy_data_returns() {
    let mut stored = MigrationStateRecord::initial();
    stored.state = MigrationState::Succeeded;
    stored.source_fingerprint = Some("fp".to_string());
    let p = preflight(stored, scan(1, 0), false, SecretKeyPolicy::PlatformDefault, probe(Ok(()), true));
    assert_eq!(p.state, MigrationState::Pending);
    assert!(p.needs_migration);
    let mut stored = MigrationStateRecord::initial();
    stored.state = MigrationState::Succeeded;
    stored.backup_path = Some("/data/b".to_string());
    let p = preflight(stored, scan(0, 3), false, SecretKeyPolicy::PlatformDefault, probe(Ok(()), true));
    assert!(p.is_ready());
    assert_eq!(p.key_status, MigrationKeyStatus::Ready);
    match decide_migration_start(p) {
        MigrationStart::AlreadyDone(report) => {
            assert_eq!(report.state, MigrationState::Succeeded);
            assert_eq!(report.backup_path.as_deref(), Some("/data/b"));
            assert_eq!(report.verified_secret_count, 0);
        }
        other => panic!("unexpected {other:?}"),
    }
}

#[test]
fn counts_manifest_and_reports() {
    let p = preflight(
        MigrationStateRecord::initial(),
        scan(2, 0),
        false,
        SecretKeyPolicy::PlatformDefault,
        probe(Ok(()), true),
    );
    let counts = migration_counts(&p);
    assert_eq!(get(&counts, "databasePlaintextCount"), Some(&JsonValue::Number(JsonNumber::PosInt(2))));
    assert_eq!(get(&counts, "connectionCount"), Some(&JsonValue::Number(JsonNumber::PosInt(3))));
    let done = succeeded_migration_counts(&p, vec![("secrets.json.bak".to_string(), "abc".to_string())]);
    assert_eq!(get(get(&done, "legacyBakFiles").unwrap(), "secrets.json.bak"), Some(&text("abc")));
    let report = succeeded_migration_report(&p, "/b".to_string(), vec!["secrets.json".to_string()], 7);
    assert_eq!(report.state, MigrationState::Succeeded);
    assert_eq!(report.verified_secret_count, 7);
    assert_eq!(report.database_plaintext_count, 2);
}

#[test]
fn state_update_merges_and_keeps_every_backup() {
    let previous = obj(vec![
        ("backupPaths", JsonValue::Array(vec![text("/a")])),
        ("cachedScan", JsonValue::Array(vec![])),
        ("cachedScanFingerprint", text("x")),
        ("keep", JsonValue::Bool(true)),
    ]);
    let update = obj(vec![("connectionCount", JsonValue::Number(JsonNumber::PosInt(4)))]);
    let up = plan_migration_state_update(
        previous,
        Some("/b".to_string()),
        Some(update),
        Some("/a".to_string()),
        &Some("BACKUP_FAILED".to_string()),
        Some("raw secret detail".to_string()),
    )
    .unwrap();
    assert!(get(&up.counts, "cachedScan").is_none());
    assert!(get(&up.counts, "cachedScanFingerprint").is_none());
    assert_eq!(get(&up.counts, "keep"), Some(&JsonValue::Bool(true)));
    assert_eq!(get(&up.counts, "connectionCount"), Some(&JsonValue::Number(JsonNumber::PosInt(4))));
    assert_eq!(get(&up.counts, "backupPaths"), Some(&JsonValue::Array(vec![text("/a"), text("/b")])));
    assert_eq!(up.backup_path.as_deref(), Some("/a"));
    assert_eq!(up.error_message.as_deref(), Some("Could not create a migration backup"));
    let bad = plan_migration_state_update(JsonValue::Null, None, Some(text("x")), None, &None, None);
    assert_eq!(bad.unwrap_err(), "Invalid migration state update");
    let none = plan_migration_state_update(JsonValue::Null, None, None, None, &None, Some("e".to_string())).unwrap();
    assert_eq!(get(&none.counts, "backupPaths"), Some(&JsonValue::Array(vec![])));
    assert_eq!(none.error_message.as_deref(), Some("Data migration failed; your original data was preserved"));
}

#[test]
fn cleanup_is_allowed_only_after_success() {
    let counts = obj(vec![
        ("backupPaths", JsonValue::Array(vec![text("/d/dbx-secret-migration-1")])),
        ("legacyBakFiles", obj(vec![("secrets.json.bak", text("h1"))])),
    ]);
    assert_eq!(
        plan_backup_cleanup(&MigrationState::Failed, &counts, None).unwrap_err(),
        "Migration backups may only be cleaned after success"
    );
    let plan = plan_backup_cleanup(&MigrationState::Succeeded, &counts, Some("/d/dbx-secret-migration-2".to_string()))
        .unwrap();
    assert_eq!(plan.backup_dirs, vec!["/d/dbx-secret-migration-1", "/d/dbx-secret-migration-2"]);
    let legacy = plan.legacy_backups.unwrap();
    assert_eq!(legacy, vec![("secrets.json.bak".to_string(), Some("h1".to_string()))]);
    let bad = obj(vec![("legacyBakFiles", obj(vec![("../etc/passwd", text("h"))]))]);
    let plan = plan_backup_cleanup(&MigrationState::Succeeded, &bad, None).unwrap();
    assert_eq!(plan.legacy_backups.unwrap_err(), "Invalid legacy backup manifest");
}

#[test]
fn legacy_names_and_backup_directories() {
    assert_eq!(legacy_json_file_names().len(), 6);
    assert_eq!(legacy_json_backup_name("ai_config.json"), "ai_config.json.bak");
    for name in legacy_json_file_names() {
        assert!(legacy_backup_name_allowed(&format!("{name}.bak")));
    }
    assert!(!legacy_backup_name_allowed("secrets.json"));
    let dir = new_migration_backup_dir_name().unwrap();
    assert!(dir.starts_with("dbx-secret-migration-"));
    assert_eq!(dir.len(), "dbx-secret-migration-".len() + 36);
    let id: Vec<char> = dir["dbx-secret-migration-".len()..].chars().collect();
    assert_eq!((id[8], id[13], id[18], id[23]), ('-', '-', '-', '-'));
    assert_eq!(id[14], '4');
    assert!("89ab".contains(id[19]));
    assert!(id.iter().all(|c| *c == '-' || c.is_ascii_digit() || ('a'..='f').contains(c)));
    assert!(is_migration_backup_dir_name(&dir));
    assert!(!is_migration_backup_dir_name("other"));
    assert_ne!(new_migration_backup_dir_name().unwrap(), dir);
}

#[test]
fn sync_credentials_are_counted() {
    let settings = vec![
        ("local_device_secret".to_string(), text("s")),
        ("webdav_sync_secrets_passphrase".to_string(), text("")),
        ("webdav_passwords".to_string(), obj(vec![("a", text("x")), ("b", text("y"))])),
    ];
    assert_eq!(sync_credential_count(&settings), 3);
    assert_eq!(sync_credential_count(&Vec::new()), 0);
}

#[test]
fn cached_scan_needs_both_fingerprints() {
    let nums: Vec<JsonValue> = [75u64, 0, 65, 15, 2, 0, 5].iter().map(|n| JsonValue::Number(JsonNumber::PosInt(*n))).collect();
    let counts = obj(vec![("cachedScan", JsonValue::Array(nums)), ("cachedScanFingerprint", text("fp"))]);
    let s = cached_migration_scan(&Some("fp".to_string()), "fp", Some(&counts)).unwrap();
    assert_eq!(s.plaintext, 75);
    assert_eq!(s.sync_credentials, 5);
    assert!(cached_migration_scan(&Some("old".to_string()), "fp", Some(&counts)).is_none());
    let legacy = obj(vec![("cachedScan", JsonValue::Array(vec![]))]);
    assert!(cached_migration_scan(&Some("fp".to_string()), "fp", Some(&legacy)).is_none());
}

#[test]
fn digests_are_lower_hex_sha256() {
    assert_eq!(file_digest(b"abc"), "ba7816bf8f01cfea414140de5dae2223b00361a396177a9cb410ff61f20015ad");
    assert_eq!(lower_hex(&[0x0a, 0x14, 0x1e, 0xff]), "0a141eff");
    let tables = vec![("t".to_string(), vec!["ab".to_string()])];
    let file_list = vec![("f.json".to_string(), None), ("g.json".to_string(), Some("d".to_string()))];
    let frame = migration_source_frame(&tables, &file_list);
    let mut expected = b"t".to_vec();
    expected.extend_from_slice(&2u64.to_le_bytes());
    expected.extend_from_slice(b"ab");
    expected.extend_from_slice(b"f.jsong.jsond");
    assert_eq!(frame, expected);
    assert_eq!(migration_source_fingerprint(&tables, &file_list), file_digest(&expected));
    let other = vec![("t".to_string(), vec!["a".to_string(), "b".to_string()])];
    assert_ne!(migration_source_fingerprint(&other, &file_list), migration_source_fingerprint(&tables, &file_list));
}

fn jtext(s: &str) -> JsonValue {
    JsonValue::Text(s.to_string())
}

fn jobj(fields: Vec<(&str, JsonValue)>) -> Vec<(String, JsonValue)> {
    fields.into_iter().map(|(k, v)| (k.to_string(), v)).collect()
}

#[test]
fn legacy_sync_credentials_are_migrated_from_app_settings_on_reopen() {
    let settings = jobj(vec![
        ("local_device_secret", jtext("legacy-device-secret")),
        ("theme", jtext("dark")),
        ("webdav_sync_secrets_passphrase", jtext("legacy-sync-passphrase")),
        (
            "webdav_passwords",
            JsonValue::Object(jobj(vec![(
                "webdav:https://example.test",
                JsonValue::Object(jobj(vec![("ciphertext", jtext("legacy-blob"))])),
            )])),
        ),
    ]);
    let (kept, items) = plan_app_settings_secret_migration(settings).unwrap();
    assert_eq!(kept, jobj(vec![("theme", jtext("dark"))]));
    assert_eq!(
        items,
        jobj(vec![
            ("local_device_secret", jtext("legacy-device-secret")),
            ("webdav_sync_secrets_passphrase", jtext("legacy-sync-passphrase")),
            (
                "webdav_password.webdav:https://example.test",
                JsonValue::Object(jobj(vec![("ciphertext", jtext("legacy-blob"))]))
            ),
        ])
    );
}

#[test]
fn settings_without_legacy_credentials_stay_as_they_are() {
    assert!(plan_app_settings_secret_migration(jobj(vec![("theme", jtext("dark"))])).is_none());
    assert!(plan_app_settings_secret_migration(jobj(vec![("webdav_passwords", jtext("odd"))])).is_none());
    let (kept, items) =
        plan_app_settings_secret_migration(jobj(vec![("local_device_secret", jtext("")), ("a", JsonValue::Null)])).unwrap();
    assert_eq!(kept, jobj(vec![("a", JsonValue::Null)]));
    assert!(items.is_empty());
}

#[test]
fn backup_dirs_are_checked_before_removal() {
    let ok = vec![("/data/dbx-secret-migration-1".to_string(), false), ("/data/dbx-secret-migration-2".to_string(), false)];
    assert_eq!(validate_backup_dirs("/data", &ok), Ok(()));
    for bad in [
        ("/elsewhere/dbx-secret-migration-1", false),
        ("/data/nested/dbx-secret-migration-1", false),
        ("/data/other-dir", false),
        ("/data/dbx-secret-migration-1", true),
    ] {
        let list = vec![ok[0].clone(), (bad.0.to_string(), bad.1)];
        assert_eq!(validate_backup_dirs("/data", &list), Err("Invalid migration backup path".to_string()));
    }
    let same = vec![(Some("abc".to_string()), "abc".to_string(), false)];
    assert_eq!(validate_legacy_backups(&same), Ok(()));
    for changed in [(Some("abc".to_string()), "abd".to_string(), false), (None, "abc".to_string(), false), (Some("abc".to_string()), "abc".to_string(), true)] {
        assert_eq!(
            validate_legacy_backups(&[changed]),
            Err("Legacy backup changed; manual inspection is required".to_string())
        );
    }
}

#[test]
fn backup_dir_name_comes_from_the_drawn_bytes() {
    let zeros = [0u8; 16];
    assert_eq!(
        migration_backup_dir_name_from(&zeros),
        "dbx-secret-migration-00000000-0000-4000-8000-000000000000"
    );
    let bytes: Vec<u8> = (0u8..16).map(|b| b * 17).collect();
    assert_eq!(
        migration_backup_dir_name_from(&bytes),
        "dbx-secret-migration-00112233-4455-4677-8899-aabbccddeeff"
    );
}

fn pending_preflight() -> MigrationPreflight {
    preflight(
        MigrationStateRecord::initial(),
        scan(2, 0),
        false,
        SecretKeyPolicy::PlatformDefault,
        probe(Ok(()), true),
    )
}

#[test]
fn migration_run_steps_follow_each_event() {
    let begin = migration_run_step(pending_preflight(), MigrationRunEvent::Begin);
    assert_eq!(begin.len(), 2);
    assert!(matches!(begin[0], MigrationRunAction::RecordRunning { .. }));
    assert!(matches!(begin[1], MigrationRunAction::CreateBackup));

    let failed_backup = migration_run_step(pending_preflight(), MigrationRunEvent::BackupFailed("disk full".to_string()));
    match &failed_backup[..] {
        [MigrationRunAction::RecordFailed { backup_path: None, error_code, error_message }, MigrationRunAction::Finish(Err(e))] => {
            assert_eq!(error_code, "BACKUP_FAILED");
            assert_eq!(error_message, "disk full");
            assert_eq!(e, "disk full");
        }
        _ => panic!("unexpected steps"),
    }

    let with_backup = migration_run_step(pending_preflight(), MigrationRunEvent::BackupCreated("/b".to_string()));
    assert!(matches!(&with_backup[0], MigrationRunAction::RecordBackup { backup_path } if backup_path == "/b"));
    assert!(matches!(with_backup[1], MigrationRunAction::Migrate));

    let failed = migration_run_step(
        pending_preflight(),
        MigrationRunEvent::RunFailed { backup_path: "/b".to_string(), error: "bad JSON".to_string() },
    );
    assert!(matches!(&failed[0], MigrationRunAction::RestoreBackup { backup_path } if backup_path == "/b"));
    match &failed[1] {
        MigrationRunAction::RecordFailed { backup_path: Some(b), error_code, .. } => {
            assert_eq!(b, "/b");
            assert_eq!(error_code, "LEGACY_JSON_INVALID");
        }
        _ => panic!("unexpected steps"),
    }
    assert!(matches!(&failed[2], MigrationRunAction::Finish(Err(e)) if e == "bad JSON"));

    let done = migration_run_step(
        pending_preflight(),
        MigrationRunEvent::Migrated {
            backup_path: "/b".to_string(),
            renamed: vec!["secrets.json".to_string()],
            verified: 5,
            bak_files: vec![("secrets.json.bak".to_string(), "d".to_string())],
        },
    );
    assert!(matches!(&done[0], MigrationRunAction::RecordSucceeded { backup_path, .. } if backup_path == "/b"));
    match &done[1] {
        MigrationRunAction::Finish(Ok(report)) => {
            assert_eq!(report.state, MigrationState::Succeeded);
            assert_eq!(report.verified_secret_count, 5);
            assert_eq!(report.backup_path.as_deref(), Some("/b"));
        }
        _ => panic!("unexpected steps"),
    }
}

#[test]
fn a_run_without_a_usable_key_is_refused() {
    let p = preflight(
        MigrationStateRecord::initial(),
        scan(1, 4),
        false,
        SecretKeyPolicy::PlatformDefault,
        probe(Err("KEY_PROVIDER_UNAVAILABLE"), true),
    );
    let steps = migration_run_step(p, MigrationRunEvent::Begin);
    match &steps[..] {
        [MigrationRunAction::RecordFailed { backup_path: None, error_code, error_message }, MigrationRunAction::Finish(Err(e))] => {
            assert_eq!(error_code, "ENCRYPTED_DATA_KEY_MISSING");
            assert_eq!(error_message, "ENCRYPTED_DATA_KEY_MISSING");
            assert_eq!(e, "ENCRYPTED_DATA_KEY_MISSING");
        }
        _ => panic!("unexpected steps"),
    }
}
