//! The secret-store migration: its recorded state, the preflight that decides
//! whether the data directory still holds legacy plaintext, and the report
//! and error vocabulary shown to the user.

use vstd::prelude::*;
use crate::text::{has_prefix, has_substring, str_contains, str_eq, str_starts_with};
use crate::storage::{SecretKeyPolicy, path_file_name, path_file_name_of, path_parent, path_parent_of};
use crate::fingerprint::hex_of;
use crate::text::string_views;
use crate::json::{
    JsonNumber, JsonValue, entries_of, is_nonempty_value, is_text_array, json_as_str, json_object_get,
    json_object_insert, json_object_remove, json_text_array, json_text_items, nonempty_json_value, object_get,
    object_without, text_items, text_of,
};

verus! {

/// Identifier of the secret-store migration in the migrations table.
pub const SECRET_STORE_MIGRATION_ID: &'static str = "secret-store-v1";

/// Where the migration stands.
#[derive(Debug, Clone, PartialEq, Eq)]
pub enum MigrationState {
    Pending,
    Running,
    Succeeded,
    Failed,
    NotRequired,
}

/// What the preflight found out about the secret key.
#[derive(Debug, Clone, PartialEq, Eq)]
pub enum MigrationKeyStatus {
    Ready,
    WillCreate,
    Unavailable,
    Invalid,
    Mismatch,
    MissingForCiphertext,
}

/// One legacy JSON file of older releases, as found in the data directory.
#[derive(Debug, Clone, PartialEq, Eq)]
pub struct LegacyJsonFileStatus {
    pub name: String,
    pub exists: bool,
    pub bytes: u64,
}

/// The outcome of inspecting the data directory before migrating.
#[derive(Debug, Clone, PartialEq, Eq)]
pub struct MigrationPreflight {
    pub migration_id: String,
    pub state: MigrationState,
    pub needs_migration: bool,
    pub key_provider_available: bool,
    pub key_status: MigrationKeyStatus,
    /// Desktop may provision a new local key only for plaintext-only data.
    /// Headless callers always set this false.
    pub key_creation_allowed: bool,
    pub database_plaintext_count: usize,
    pub connection_count: usize,
    pub plugin_secret_count: usize,
    pub ai_secret_count: usize,
    pub tunnel_secret_count: usize,
    pub sync_credential_count: usize,
    pub legacy_json_files: Vec<LegacyJsonFileStatus>,
    pub backup_required: bool,
    pub backup_path: Option<String>,
    pub error_message: Option<String>,
    pub error_code: Option<String>,
    pub data_dir: String,
    pub backup_dir: String,
    pub key_file_configured: bool,
    pub key_file_readable: bool,
    pub persistent_key_configured: bool,
    pub key_source: String,
}

/// Whether a state counts as done.
pub open spec fn state_is_done(s: MigrationState) -> bool {
    s is Succeeded || s is NotRequired
}

impl MigrationPreflight {
    /// Nothing is left to migrate and the recorded state is final.
    pub fn is_ready(&self) -> (r: bool)
        ensures
            r == (!self.needs_migration && state_is_done(self.state)),
    {
        !self.needs_migration && match self.state {
            MigrationState::Succeeded | MigrationState::NotRequired => true,
            _ => false,
        }
    }
}

/// What a finished or refused migration reports.
#[derive(Debug, Clone, PartialEq, Eq)]
pub struct MigrationReport {
    pub migration_id: String,
    pub state: MigrationState,
    pub backup_path: Option<String>,
    pub database_plaintext_count: usize,
    pub legacy_json_files: Vec<String>,
    pub verified_secret_count: usize,
    pub error_code: Option<String>,
    pub error_message: Option<String>,
}

/// The row of the migrations table.
#[derive(Debug, Clone, PartialEq, Eq)]
pub struct MigrationStateRecord {
    pub state: MigrationState,
    pub backup_path: Option<String>,
    pub error_code: Option<String>,
    pub error_message: Option<String>,
    pub source_fingerprint: Option<String>,
    pub counts_json: String,
}

impl MigrationStateRecord {
    /// The record of a migration that never ran.
    pub fn initial() -> (r: Self)
        ensures
            r.state is Pending,
            r.backup_path is None,
            r.error_code is None,
            r.error_message is None,
            r.source_fingerprint is None,
            r.counts_json@ == "{}"@,
    {
        MigrationStateRecord {
            state: MigrationState::Pending,
            backup_path: None,
            error_code: None,
            error_message: None,
            source_fingerprint: None,
            counts_json: String::from_str("{}"),
        }
    }
}

/// The name a state is stored under.
pub open spec fn state_name(s: MigrationState) -> Seq<char> {
    match s {
        MigrationState::Pending => "pending"@,
        MigrationState::Running => "running"@,
        MigrationState::Succeeded => "succeeded"@,
        MigrationState::Failed => "failed"@,
        MigrationState::NotRequired => "not_required"@,
    }
}

/// The name a state is stored under.
pub fn migration_state_name(s: &MigrationState) -> (r: &'static str)
    ensures
        r@ == state_name(*s),
{
    match s {
        MigrationState::Pending => "pending",
        MigrationState::Running => "running",
        MigrationState::Succeeded => "succeeded",
        MigrationState::Failed => "failed",
        MigrationState::NotRequired => "not_required",
    }
}

/// The state stored under `name`; an unknown name reads as pending.
pub open spec fn state_from_name(name: Seq<char>) -> MigrationState {
    if name == "running"@ {
        MigrationState::Running
    } else if name == "succeeded"@ {
        MigrationState::Succeeded
    } else if name == "failed"@ {
        MigrationState::Failed
    } else if name == "not_required"@ {
        MigrationState::NotRequired
    } else {
        MigrationState::Pending
    }
}

/// The state stored under `name`; an unknown name reads as pending.
pub fn migration_state_from_name(name: &str) -> (r: MigrationState)
    ensures
        r == state_from_name(name@),
{
    if str_eq(name, "running") {
        MigrationState::Running
    } else if str_eq(name, "succeeded") {
        MigrationState::Succeeded
    } else if str_eq(name, "failed") {
        MigrationState::Failed
    } else if str_eq(name, "not_required") {
        MigrationState::NotRequired
    } else {
        MigrationState::Pending
    }
}

/// The error code that a failure's message maps to.
pub open spec fn error_code_for(e: Seq<char>) -> Seq<char> {
    if has_substring(e, "MISSING_MANAGED_KEY"@) {
        "MISSING_MANAGED_KEY"@
    } else if has_substring(e, "ENCRYPTED_DATA_KEY_MISSING"@) {
        "ENCRYPTED_DATA_KEY_MISSING"@
    } else if has_substring(e, "SECRET_KEY_MISMATCH"@) {
        "SECRET_KEY_MISMATCH"@
    } else if has_substring(e, "SECRET_KEY_INVALID"@) {
        "SECRET_KEY_INVALID"@
    } else if has_substring(e, "KEY_FILE_UNAVAILABLE"@) {
        "KEY_FILE_UNAVAILABLE"@
    } else if has_substring(e, "MISSING_EXTERNAL_KEY"@) || has_substring(e, "MISSING_PERSISTENT_KEY"@) {
        "MISSING_EXTERNAL_KEY"@
    } else if has_substring(e, "KEY_PROVIDER_UNAVAILABLE"@) {
        "KEY_PROVIDER_UNAVAILABLE"@
    } else if has_substring(e, "JSON"@) || has_substring(e, "json"@) {
        "LEGACY_JSON_INVALID"@
    } else if has_substring(e, "verification"@) || has_substring(e, "plaintext remains"@) {
        "VERIFICATION_FAILED"@
    } else if has_substring(e, "backup"@) {
        "BACKUP_FAILED"@
    } else {
        "MIGRATION_FAILED"@
    }
}

/// Classifies a failure's message into a stable error code.
pub fn migration_error_code(error: &str) -> (r: &'static str)
    ensures
        r@ == error_code_for(error@),
{
    if str_contains(error, "MISSING_MANAGED_KEY") {
        "MISSING_MANAGED_KEY"
    } else if str_contains(error, "ENCRYPTED_DATA_KEY_MISSING") {
        "ENCRYPTED_DATA_KEY_MISSING"
    } else if str_contains(error, "SECRET_KEY_MISMATCH") {
        "SECRET_KEY_MISMATCH"
    } else if str_contains(error, "SECRET_KEY_INVALID") {
        "SECRET_KEY_INVALID"
    } else if str_contains(error, "KEY_FILE_UNAVAILABLE") {
        "KEY_FILE_UNAVAILABLE"
    } else if str_contains(error, "MISSING_EXTERNAL_KEY") || str_contains(error, "MISSING_PERSISTENT_KEY") {
        "MISSING_EXTERNAL_KEY"
    } else if str_contains(error, "KEY_PROVIDER_UNAVAILABLE") {
        "KEY_PROVIDER_UNAVAILABLE"
    } else if str_contains(error, "JSON") || str_contains(error, "json") {
        "LEGACY_JSON_INVALID"
    } else if str_contains(error, "verification") || str_contains(error, "plaintext remains") {
        "VERIFICATION_FAILED"
    } else if str_contains(error, "backup") {
        "BACKUP_FAILED"
    } else {
        "MIGRATION_FAILED"
    }
}

/// The message shown for a failure with error code `code`; it never repeats
/// the raw failure, which may quote secret material.
pub open spec fn safe_message_for(code: Seq<char>) -> Seq<char> {
    if code == "MISSING_MANAGED_KEY"@ {
        "A managed data-directory secret key is required"@
    } else if code == "ENCRYPTED_DATA_KEY_MISSING"@ {
        "The key for existing encrypted data is missing"@
    } else if code == "SECRET_KEY_MISMATCH"@ {
        "The configured secret key cannot decrypt existing data"@
    } else if code == "SECRET_KEY_INVALID"@ {
        "The configured secret key is invalid"@
    } else if code == "KEY_FILE_UNAVAILABLE"@ {
        "The configured secret key file is unavailable"@
    } else if code == "MISSING_EXTERNAL_KEY"@ {
        "An external secret key is required"@
    } else if code == "BACKUP_FAILED"@ {
        "Could not create a migration backup"@
    } else if code == "LEGACY_JSON_INVALID"@ {
        "A legacy configuration file could not be read"@
    } else if code == "VERIFICATION_FAILED"@ {
        "Encrypted data verification failed"@
    } else if code == "KEY_PROVIDER_UNAVAILABLE"@ {
        "The local secret provider is unavailable"@
    } else {
        "Data migration failed; your original data was preserved"@
    }
}

/// The message stored for a failure with error code `code`.
pub fn migration_safe_message(code: &str, _error: &str) -> (r: String)
    ensures
        r@ == safe_message_for(code@),
{
    if str_eq(code, "MISSING_MANAGED_KEY") {
        String::from_str("A managed data-directory secret key is required")
    } else if str_eq(code, "ENCRYPTED_DATA_KEY_MISSING") {
        String::from_str("The key for existing encrypted data is missing")
    } else if str_eq(code, "SECRET_KEY_MISMATCH") {
        String::from_str("The configured secret key cannot decrypt existing data")
    } else if str_eq(code, "SECRET_KEY_INVALID") {
        String::from_str("The configured secret key is invalid")
    } else if str_eq(code, "KEY_FILE_UNAVAILABLE") {
        String::from_str("The configured secret key file is unavailable")
    } else if str_eq(code, "MISSING_EXTERNAL_KEY") {
        String::from_str("An external secret key is required")
    } else if str_eq(code, "BACKUP_FAILED") {
        String::from_str("Could not create a migration backup")
    } else if str_eq(code, "LEGACY_JSON_INVALID") {
        String::from_str("A legacy configuration file could not be read")
    } else if str_eq(code, "VERIFICATION_FAILED") {
        String::from_str("Encrypted data verification failed")
    } else if str_eq(code, "KEY_PROVIDER_UNAVAILABLE") {
        String::from_str("The local secret provider is unavailable")
    } else {
        String::from_str("Data migration failed; your original data was preserved")
    }
}

/// Row counts gathered from the database for a preflight: plaintext secrets
/// (stored rows plus connections holding inline secrets), encrypted secrets,
/// connections, plugin secrets, AI and tunnel secrets kept in configuration
/// blobs, and stored sync credentials.
#[derive(Debug, Clone, Copy, PartialEq, Eq)]
pub struct MigrationScan {
    pub plaintext: i64,
    pub encrypted: i64,
    pub connections: i64,
    pub plugins: i64,
    pub ai: i64,
    pub tunnels: i64,
    pub sync_credentials: i64,
}

/// What resolving the secret key, without creating one, gave.
#[derive(Debug)]
pub struct KeyProbe {
    /// `Ok(())` when a key resolved; otherwise the resolver's error code.
    pub outcome: Result<(), String>,
    /// The name of the key's source (the "unavailable" source when none
    /// resolved).
    pub source: String,
    /// Whether the resolved key decrypts every stored ciphertext. Consulted
    /// only when a key resolved and ciphertext exists.
    pub decrypts_existing: bool,
}

/// The view of an optional string.
pub open spec fn opt_view(o: Option<String>) -> Option<Seq<char>> {
    match o {
        Some(s) => Some(s@),
        None => None,
    }
}

/// A row count as a size: negative counts read as zero.
pub open spec fn count_of(x: i64) -> usize {
    if x < 0 {
        0
    } else {
        x as usize
    }
}

fn count_from(x: i64) -> (r: usize)
    ensures
        r == count_of(x),
{
    if x < 0 {
        0
    } else {
        x as usize
    }
}

/// Whether the plaintext total of a scan fits in an `i64`.
pub open spec fn scan_sums_fit(scan: MigrationScan) -> bool {
    &&& i64::MIN <= scan.plaintext + scan.ai <= i64::MAX
    &&& i64::MIN <= scan.plaintext + scan.ai + scan.tunnels <= i64::MAX
}

/// Plaintext secrets anywhere in the database.
pub open spec fn plaintext_count(scan: MigrationScan) -> usize {
    count_of((scan.plaintext + scan.ai + scan.tunnels) as i64)
}

/// Whether some legacy JSON file exists.
pub open spec fn any_file_exists(files: Seq<LegacyJsonFileStatus>) -> bool {
    exists|i: int| 0 <= i < files.len() && #[trigger] files[i].exists
}

/// Whether anything is left that the migration would move.
pub open spec fn has_legacy_data(scan: MigrationScan, files: Seq<LegacyJsonFileStatus>) -> bool {
    plaintext_count(scan) > 0 || scan.sync_credentials > 0 || any_file_exists(files)
}

/// The resolver's error code, if the key did not resolve.
pub open spec fn probe_error(outcome: Result<(), String>) -> Option<Seq<char>> {
    match outcome {
        Ok(_) => None,
        Err(e) => Some(e@),
    }
}

/// Codes that say no key exists yet.
pub open spec fn is_missing_key_code(c: Seq<char>) -> bool {
    c == "MISSING_MANAGED_KEY"@ || c == "MISSING_EXTERNAL_KEY"@ || c == "KEY_PROVIDER_UNAVAILABLE"@
}

/// Codes that no retry can get past without the user's help.
pub open spec fn is_fatal_key_code(c: Seq<char>) -> bool {
    ||| c == "SECRET_KEY_INVALID"@
    ||| c == "SECRET_KEY_MISMATCH"@
    ||| c == "KEY_FILE_UNAVAILABLE"@
    ||| c == "MISSING_EXTERNAL_KEY"@
    ||| c == "ENCRYPTED_DATA_KEY_MISSING"@
}

/// A new key may be created: none exists yet, the policy allows creating
/// one, no ciphertext needs the old key, and there is data to protect.
pub open spec fn creation_allowed_for(
    err: Option<Seq<char>>,
    policy: SecretKeyPolicy,
    scan: MigrationScan,
    files: Seq<LegacyJsonFileStatus>,
) -> bool {
    &&& err matches Some(c) && (c == "MISSING_MANAGED_KEY"@ || c == "KEY_PROVIDER_UNAVAILABLE"@)
    &&& !(policy is ExternalOnly)
    &&& scan.encrypted == 0
    &&& has_legacy_data(scan, files)
}

/// A usable key resolved: it exists and decrypts what is already encrypted.
pub open spec fn key_available_for(err: Option<Seq<char>>, scan: MigrationScan, decrypts: bool) -> bool {
    err is None && !(scan.encrypted > 0 && !decrypts)
}

/// The key error to report.
pub open spec fn key_error_for(err: Option<Seq<char>>, scan: MigrationScan, decrypts: bool) -> Option<Seq<char>> {
    match err {
        None => if scan.encrypted > 0 && !decrypts {
            Some("SECRET_KEY_MISMATCH"@)
        } else {
            None
        },
        Some(c) => if scan.encrypted > 0 && is_missing_key_code(c) {
            Some("ENCRYPTED_DATA_KEY_MISSING"@)
        } else {
            Some(c)
        },
    }
}

/// The key status shown for a key error.
pub open spec fn key_status_for(key_error: Option<Seq<char>>, available: bool, creation_allowed: bool) -> MigrationKeyStatus {
    match key_error {
        Some(c) => if c == "SECRET_KEY_INVALID"@ {
            MigrationKeyStatus::Invalid
        } else if c == "SECRET_KEY_MISMATCH"@ {
            MigrationKeyStatus::Mismatch
        } else if c == "ENCRYPTED_DATA_KEY_MISSING"@ {
            MigrationKeyStatus::MissingForCiphertext
        } else if (c == "KEY_PROVIDER_UNAVAILABLE"@ || c == "MISSING_MANAGED_KEY"@) && creation_allowed {
            MigrationKeyStatus::WillCreate
        } else {
            MigrationKeyStatus::Unavailable
        },
        None => if available {
            MigrationKeyStatus::Ready
        } else {
            MigrationKeyStatus::Unavailable
        },
    }
}

/// The message shown for a key error code.
pub open spec fn key_error_message(code: Seq<char>) -> Seq<char> {
    if code == "MISSING_MANAGED_KEY"@ {
        "A managed data-directory secret key will be created when migration or first secret write starts"@
    } else if code == "ENCRYPTED_DATA_KEY_MISSING"@ {
        "The key for existing encrypted data is missing"@
    } else if code == "SECRET_KEY_INVALID"@ {
        "The configured secret key is invalid"@
    } else if code == "SECRET_KEY_MISMATCH"@ {
        "The configured secret key cannot decrypt existing data"@
    } else if code == "KEY_FILE_UNAVAILABLE"@ {
        "The configured secret key file is unavailable"@
    } else if code == "MISSING_EXTERNAL_KEY"@ {
        "An external secret key is required"@
    } else {
        "The local secret provider is unavailable"@
    }
}

fn key_error_message_exec(code: &str) -> (r: String)
    ensures
        r@ == key_error_message(code@),
{
    if str_eq(code, "MISSING_MANAGED_KEY") {
        String::from_str("A managed data-directory secret key will be created when migration or first secret write starts")
    } else if str_eq(code, "ENCRYPTED_DATA_KEY_MISSING") {
        String::from_str("The key for existing encrypted data is missing")
    } else if str_eq(code, "SECRET_KEY_INVALID") {
        String::from_str("The configured secret key is invalid")
    } else if str_eq(code, "SECRET_KEY_MISMATCH") {
        String::from_str("The configured secret key cannot decrypt existing data")
    } else if str_eq(code, "KEY_FILE_UNAVAILABLE") {
        String::from_str("The configured secret key file is unavailable")
    } else if str_eq(code, "MISSING_EXTERNAL_KEY") {
        String::from_str("An external secret key is required")
    } else {
        String::from_str("The local secret provider is unavailable")
    }
}

/// The facts about the key that the preflight derives from a probe.
pub struct KeyFacts {
    pub available: bool,
    pub error: Option<Seq<char>>,
    pub creation_allowed: bool,
    /// An external key is required and none is usable.
    pub missing_required: bool,
    /// Ciphertext exists and no usable key does.
    pub missing_existing: bool,
    pub fatal: bool,
}

/// The key facts for a probe.
pub open spec fn key_facts(
    err: Option<Seq<char>>,
    decrypts: bool,
    policy: SecretKeyPolicy,
    scan: MigrationScan,
    files: Seq<LegacyJsonFileStatus>,
) -> KeyFacts {
    let available = key_available_for(err, scan, decrypts);
    let error = key_error_for(err, scan, decrypts);
    KeyFacts {
        available,
        error,
        creation_allowed: creation_allowed_for(err, policy, scan, files),
        missing_required: !available && policy is ExternalOnly,
        missing_existing: scan.encrypted > 0 && !available,
        fatal: error matches Some(c) && is_fatal_key_code(c),
    }
}

/// Whether the scanned source differs from the one last recorded.
pub open spec fn source_changed(stored: Option<Seq<char>>, current: Seq<char>) -> bool {
    stored matches Some(v) && v != current
}

/// The state a preflight reports.
pub open spec fn preflight_state(
    stored: MigrationState,
    k: KeyFacts,
    legacy: bool,
    changed: bool,
) -> MigrationState {
    if k.fatal || k.missing_required || k.missing_existing || (legacy && (changed || state_is_done(stored))) {
        MigrationState::Pending
    } else if !legacy && stored is Pending {
        MigrationState::NotRequired
    } else {
        stored
    }
}

/// Whether the migration must (still) run.
pub open spec fn preflight_needs_migration(state: MigrationState, k: KeyFacts, legacy: bool) -> bool {
    ||| k.fatal
    ||| k.missing_required
    ||| k.missing_existing
    ||| state is Failed
    ||| state is Running
    ||| (legacy && !state_is_done(state))
}

/// The error code and message a preflight reports.
pub open spec fn preflight_error(
    k: KeyFacts,
    stored_code: Option<Seq<char>>,
    stored_message: Option<Seq<char>>,
) -> (Option<Seq<char>>, Option<Seq<char>>) {
    match k.error {
        Some(c) => (Some(c), Some(key_error_message(c))),
        None => if k.missing_required {
            (Some("MISSING_EXTERNAL_KEY"@), Some("An external secret key is required"@))
        } else if k.missing_existing {
            (Some("ENCRYPTED_DATA_KEY_MISSING"@), Some("The key for existing encrypted data is missing"@))
        } else {
            (stored_code, stored_message)
        },
    }
}

/// `r` is the preflight for the recorded state, the current source
/// fingerprint, the scan, the legacy files, the key policy and the probe.
pub open spec fn is_preflight_for(
    r: MigrationPreflight,
    stored: MigrationStateRecord,
    current: Seq<char>,
    scan: MigrationScan,
    files: Seq<LegacyJsonFileStatus>,
    policy: SecretKeyPolicy,
    probe: KeyProbe,
    data_dir: Seq<char>,
    key_file_configured: bool,
    key_file_readable: bool,
) -> bool {
    let k = key_facts(probe_error(probe.outcome), probe.decrypts_existing, policy, scan, files);
    let legacy = has_legacy_data(scan, files);
    let state = preflight_state(stored.state, k, legacy, source_changed(opt_view(stored.source_fingerprint), current));
    let needs = preflight_needs_migration(state, k, legacy);
    let err = preflight_error(k, opt_view(stored.error_code), opt_view(stored.error_message));
    &&& r.migration_id@ == SECRET_STORE_MIGRATION_ID@
    &&& r.state == state
    &&& r.needs_migration == needs
    &&& r.key_provider_available == k.available
    &&& r.key_status == key_status_for(k.error, k.available, k.creation_allowed)
    &&& r.key_creation_allowed == k.creation_allowed
    &&& r.database_plaintext_count == plaintext_count(scan)
    &&& r.connection_count == count_of(scan.connections)
    &&& r.plugin_secret_count == count_of(scan.plugins)
    &&& r.ai_secret_count == count_of(scan.ai)
    &&& r.tunnel_secret_count == count_of(scan.tunnels)
    &&& r.sync_credential_count == count_of(scan.sync_credentials)
    &&& r.legacy_json_files@ == files
    &&& r.backup_required == needs
    &&& r.backup_path == stored.backup_path
    &&& opt_view(r.error_code) == err.0
    &&& opt_view(r.error_message) == err.1
    &&& r.data_dir@ == data_dir
    &&& r.backup_dir@ == data_dir
    &&& r.key_file_configured == key_file_configured
    &&& r.key_file_readable == key_file_readable
    &&& r.persistent_key_configured == k.available
    &&& r.key_source@ == probe.source@
}

fn is_code(c: &Option<String>, lit: &str) -> (r: bool)
    ensures
        r == (opt_view(*c) == Some(lit@)),
{
    match c {
        Some(s) => str_eq(s.as_str(), lit),
        None => false,
    }
}

/// Decides the preflight from what was read: the recorded migration row,
/// the fingerprint of the current source data, the row counts, the legacy
/// files, the key policy and the outcome of a key probe that created nothing.
pub fn plan_migration_preflight(
    stored: MigrationStateRecord,
    current_fingerprint: &str,
    scan: MigrationScan,
    files: Vec<LegacyJsonFileStatus>,
    policy: SecretKeyPolicy,
    probe: KeyProbe,
    data_dir: String,
    key_file_configured: bool,
    key_file_readable: bool,
) -> (r: MigrationPreflight)
    requires
        scan_sums_fit(scan),
    ensures
        is_preflight_for(
            r,
            stored,
            current_fingerprint@,
            scan,
            files@,
            policy,
            probe,
            data_dir@,
            key_file_configured,
            key_file_readable,
        ),
{
    let ghost k = key_facts(probe_error(probe.outcome), probe.decrypts_existing, policy, scan, files@);
    let database_plaintext_count = count_from(scan.plaintext + scan.ai + scan.tunnels);
    let mut any_exists = false;
    let mut i: usize = 0;
    while i < files.len()
        invariant
            i <= files.len(),
            any_exists == exists|j: int| 0 <= j < i && #[trigger] files@[j].exists,
        decreases files.len() - i,
    {
        if files[i].exists {
            any_exists = true;
        }
        i = i + 1;
    }
    let legacy = database_plaintext_count > 0 || scan.sync_credentials > 0 || any_exists;
    assert(legacy == has_legacy_data(scan, files@));
    let probe_err: Option<String> = match &probe.outcome {
        Ok(_) => None,
        Err(e) => Some(e.clone()),
    };
    assert(opt_view(probe_err) == probe_error(probe.outcome));
    let external_only = match policy {
        SecretKeyPolicy::ExternalOnly => true,
        _ => false,
    };
    let key_creation_allowed = (is_code(&probe_err, "MISSING_MANAGED_KEY") || is_code(&probe_err, "KEY_PROVIDER_UNAVAILABLE"))
        && !external_only && scan.encrypted == 0 && legacy;
    assert(key_creation_allowed == k.creation_allowed);
    let mut key_provider_available = probe_err.is_none();
    let mut key_error_code: Option<String> = match &probe_err {
        Some(e) => Some(e.clone()),
        None => None,
    };
    if probe_err.is_none() {
        if scan.encrypted > 0 && !probe.decrypts_existing {
            key_provider_available = false;
            key_error_code = Some(String::from_str("SECRET_KEY_MISMATCH"));
        }
    } else if scan.encrypted > 0 && (is_code(&key_error_code, "MISSING_MANAGED_KEY") || is_code(
        &key_error_code,
        "MISSING_EXTERNAL_KEY",
    ) || is_code(&key_error_code, "KEY_PROVIDER_UNAVAILABLE")) {
        key_error_code = Some(String::from_str("ENCRYPTED_DATA_KEY_MISSING"));
    }
    assert(key_provider_available == k.available);
    assert(opt_view(key_error_code) == k.error);
    let missing_required_key = !key_provider_available && external_only;
    let missing_existing_key = scan.encrypted > 0 && !key_provider_available;
    let fatal_key_error = is_code(&key_error_code, "SECRET_KEY_INVALID") || is_code(&key_error_code, "SECRET_KEY_MISMATCH")
        || is_code(&key_error_code, "KEY_FILE_UNAVAILABLE") || is_code(&key_error_code, "MISSING_EXTERNAL_KEY")
        || is_code(&key_error_code, "ENCRYPTED_DATA_KEY_MISSING");
    assert(fatal_key_error == k.fatal);
    let key_status = if is_code(&key_error_code, "SECRET_KEY_INVALID") {
        MigrationKeyStatus::Invalid
    } else if is_code(&key_error_code, "SECRET_KEY_MISMATCH") {
        MigrationKeyStatus::Mismatch
    } else if is_code(&key_error_code, "ENCRYPTED_DATA_KEY_MISSING") {
        MigrationKeyStatus::MissingForCiphertext
    } else if (is_code(&key_error_code, "KEY_PROVIDER_UNAVAILABLE") || is_code(&key_error_code, "MISSING_MANAGED_KEY"))
        && key_creation_allowed {
        MigrationKeyStatus::WillCreate
    } else if key_error_code.is_some() {
        MigrationKeyStatus::Unavailable
    } else if key_provider_available {
        MigrationKeyStatus::Ready
    } else {
        MigrationKeyStatus::Unavailable
    };
    let changed = match &stored.source_fingerprint {
        Some(v) => !str_eq(v.as_str(), current_fingerprint),
        None => false,
    };
    let stored_done = match stored.state {
        MigrationState::Succeeded | MigrationState::NotRequired => true,
        _ => false,
    };
    let stored_pending = match stored.state {
        MigrationState::Pending => true,
        _ => false,
    };
    let state = if fatal_key_error || missing_required_key || missing_existing_key || (legacy && (changed
        || stored_done)) {
        MigrationState::Pending
    } else if !legacy && stored_pending {
        MigrationState::NotRequired
    } else {
        match stored.state {
            MigrationState::Pending => MigrationState::Pending,
            MigrationState::Running => MigrationState::Running,
            MigrationState::Succeeded => MigrationState::Succeeded,
            MigrationState::Failed => MigrationState::Failed,
            MigrationState::NotRequired => MigrationState::NotRequired,
        }
    };
    let state_done = match state {
        MigrationState::Succeeded | MigrationState::NotRequired => true,
        _ => false,
    };
    let state_active = match state {
        MigrationState::Failed | MigrationState::Running => true,
        _ => false,
    };
    let needs_migration = fatal_key_error || missing_required_key || missing_existing_key || state_active || (legacy
        && !state_done);
    let (error_code, error_message) = match key_error_code {
        Some(code) => {
            let message = key_error_message_exec(code.as_str());
            (Some(code), Some(message))
        },
        None => if missing_required_key {
            (Some(String::from_str("MISSING_EXTERNAL_KEY")), Some(String::from_str("An external secret key is required")))
        } else if missing_existing_key {
            (
                Some(String::from_str("ENCRYPTED_DATA_KEY_MISSING")),
                Some(String::from_str("The key for existing encrypted data is missing")),
            )
        } else {
            (stored.error_code, stored.error_message)
        },
    };
    let backup_dir = data_dir.clone();
    MigrationPreflight {
        migration_id: String::from_str(SECRET_STORE_MIGRATION_ID),
        state,
        needs_migration,
        key_provider_available,
        key_status,
        key_creation_allowed,
        database_plaintext_count,
        connection_count: count_from(scan.connections),
        plugin_secret_count: count_from(scan.plugins),
        ai_secret_count: count_from(scan.ai),
        tunnel_secret_count: count_from(scan.tunnels),
        sync_credential_count: count_from(scan.sync_credentials),
        legacy_json_files: files,
        backup_required: needs_migration,
        backup_path: stored.backup_path,
        error_message,
        error_code,
        data_dir,
        backup_dir,
        key_file_configured,
        key_file_readable,
        persistent_key_configured: key_provider_available,
        key_source: probe.source,
    }
}

/// The preflight fails closed. Legacy data is never reported as migrated;
/// a new key may be created only where no ciphertext exists, the policy
/// allows it and no key resolved; and a preflight that needs no migration
/// has a usable key, or neither ciphertext nor an external-key requirement.
pub proof fn lemma_preflight_fails_closed(
    r: MigrationPreflight,
    stored: MigrationStateRecord,
    current: Seq<char>,
    scan: MigrationScan,
    files: Seq<LegacyJsonFileStatus>,
    policy: SecretKeyPolicy,
    probe: KeyProbe,
    data_dir: Seq<char>,
    key_file_configured: bool,
    key_file_readable: bool,
)
    requires
        is_preflight_for(r, stored, current, scan, files, policy, probe, data_dir, key_file_configured, key_file_readable),
    ensures
        has_legacy_data(scan, files) ==> !state_is_done(r.state) && r.needs_migration,
        r.key_creation_allowed ==> scan.encrypted == 0 && !(policy is ExternalOnly) && !r.key_provider_available,
        !r.needs_migration ==> r.key_provider_available || (scan.encrypted <= 0 && !(policy is ExternalOnly)),
        r.backup_required == r.needs_migration,
{
}

/// What starting the migration does first, given a fresh preflight.
#[derive(Debug)]
pub enum MigrationStart {
    /// Nothing to do: report the finished state.
    AlreadyDone(MigrationReport),
    /// No key is usable and none may be created: record the failure with this
    /// code and return it as the error.
    Refused(String),
    /// Back up, migrate and verify.
    Proceed,
}

/// The report for a migration that had nothing left to do.
pub open spec fn is_done_report(r: MigrationReport, p: MigrationPreflight) -> bool {
    &&& r.migration_id@ == SECRET_STORE_MIGRATION_ID@
    &&& r.state == p.state
    &&& r.backup_path == p.backup_path
    &&& r.database_plaintext_count == 0
    &&& r.legacy_json_files@.len() == 0
    &&& r.verified_secret_count == 0
    &&& r.error_code is None
    &&& r.error_message is None
}

/// The first decision of a migration run.
pub fn decide_migration_start(preflight: MigrationPreflight) -> (r: MigrationStart)
    ensures
        !preflight.needs_migration && state_is_done(preflight.state) ==> (r matches MigrationStart::AlreadyDone(
            rep,
        ) && is_done_report(rep, preflight)),
        !(!preflight.needs_migration && state_is_done(preflight.state)) && !preflight.key_provider_available
            && !preflight.key_creation_allowed ==> (r matches MigrationStart::Refused(code) && code@ == match opt_view(
            preflight.error_code,
        ) {
            Some(c) => c,
            None => "KEY_PROVIDER_UNAVAILABLE"@,
        }),
        !(!preflight.needs_migration && state_is_done(preflight.state)) && (preflight.key_provider_available
            || preflight.key_creation_allowed) ==> r is Proceed,
{
    if preflight.is_ready() {
        return MigrationStart::AlreadyDone(
            MigrationReport {
                migration_id: String::from_str(SECRET_STORE_MIGRATION_ID),
                state: preflight.state,
                backup_path: preflight.backup_path,
                database_plaintext_count: 0,
                legacy_json_files: Vec::new(),
                verified_secret_count: 0,
                error_code: None,
                error_message: None,
            },
        );
    }
    if !preflight.key_provider_available && !preflight.key_creation_allowed {
        let code = match preflight.error_code {
            Some(c) => c,
            None => String::from_str("KEY_PROVIDER_UNAVAILABLE"),
        };
        return MigrationStart::Refused(code);
    }
    MigrationStart::Proceed
}

/// `r` is the report of a completed migration.
pub open spec fn is_succeeded_report(
    r: MigrationReport,
    preflight: MigrationPreflight,
    backup_path: Seq<char>,
    renamed: Seq<String>,
    verified: usize,
) -> bool {
    &&& r.migration_id@ == SECRET_STORE_MIGRATION_ID@
    &&& r.state is Succeeded
    &&& opt_view(r.backup_path) == Some(backup_path)
    &&& r.database_plaintext_count == preflight.database_plaintext_count
    &&& r.legacy_json_files@ == renamed
    &&& r.verified_secret_count == verified
    &&& r.error_code is None
    &&& r.error_message is None
}

/// The report of a migration that completed and verified.
pub fn succeeded_migration_report(
    preflight: &MigrationPreflight,
    backup_path: String,
    renamed: Vec<String>,
    verified: usize,
) -> (r: MigrationReport)
    ensures
        is_succeeded_report(r, *preflight, backup_path@, renamed@, verified),
{
    MigrationReport {
        migration_id: String::from_str(SECRET_STORE_MIGRATION_ID),
        state: MigrationState::Succeeded,
        backup_path: Some(backup_path),
        database_plaintext_count: preflight.database_plaintext_count,
        legacy_json_files: renamed,
        verified_secret_count: verified,
        error_code: None,
        error_message: None,
    }
}

/// The backup directories recorded in a migration manifest; `None` where the
/// entry is there but is not an array of strings.
pub open spec fn backup_paths_of(counts: JsonValue) -> Option<Seq<Seq<char>>> {
    match counts {
        JsonValue::Object(e) => match object_get(e@, "backupPaths"@) {
            None => Some(Seq::empty()),
            Some(JsonValue::Array(items)) => text_items(items@),
            Some(_) => None,
        },
        _ => Some(Seq::empty()),
    }
}

/// The backup directories recorded in a migration manifest.
pub fn migration_backup_paths(counts: &JsonValue) -> (r: Result<Vec<String>, String>)
    ensures
        match r {
            Ok(v) => backup_paths_of(*counts) == Some(string_views(v@)),
            Err(e) => backup_paths_of(*counts) is None && e@
                == "Invalid migration backup manifest: backupPaths must be an array"@,
        },
{
    match counts {
        JsonValue::Object(e) => match json_object_get(e.as_slice(), "backupPaths") {
            None => {
                let v: Vec<String> = Vec::new();
                assert(string_views(v@) =~= Seq::<Seq<char>>::empty());
                Ok(v)
            },
            Some(JsonValue::Array(items)) => match json_text_items(items.as_slice()) {
                Some(v) => Ok(v),
                None => Err(String::from_str("Invalid migration backup manifest: backupPaths must be an array")),
            },
            Some(_) => Err(String::from_str("Invalid migration backup manifest: backupPaths must be an array")),
        },
        _ => {
            let v: Vec<String> = Vec::new();
            assert(string_views(v@) =~= Seq::<Seq<char>>::empty());
            Ok(v)
        },
    }
}

/// `paths` with `p` appended unless already there.
pub open spec fn append_missing(paths: Seq<Seq<char>>, p: Option<Seq<char>>) -> Seq<Seq<char>> {
    match p {
        Some(x) => if paths.contains(x) {
            paths
        } else {
            paths.push(x)
        },
        None => paths,
    }
}

fn push_missing(paths: &mut Vec<String>, p: &Option<String>)
    ensures
        string_views(final(paths)@) == append_missing(string_views(old(paths)@), opt_view(*p)),
{
    if let Some(x) = p {
        let mut found = false;
        let mut i: usize = 0;
        while i < paths.len()
            invariant
                i <= paths.len(),
                found == exists|j: int| 0 <= j < i && paths@[j]@ == x@,
            decreases paths.len() - i,
        {
            if paths[i] == *x {
                found = true;
            }
            i = i + 1;
        }
        let ghost views = string_views(paths@);
        proof {
            if views.contains(x@) {
                let j = choose|j: int| 0 <= j < views.len() && views[j] == x@;
                assert(paths@[j]@ == x@);
            }
            if found {
                let j = choose|j: int| 0 <= j < paths@.len() && paths@[j]@ == x@;
                assert(views[j] == x@);
            }
        }
        if !found {
            paths.push(x.clone());
            assert(string_views(paths@) =~= views.push(x@));
        }
    }
}

/// The entries of a manifest: an object's entries, or none for `null`.
pub open spec fn manifest_entries(v: JsonValue) -> Seq<(String, JsonValue)> {
    match v {
        JsonValue::Object(e) => e@,
        _ => Seq::empty(),
    }
}

/// The value of `k` once `update` is written over `prev`.
pub open spec fn merged_get(prev: Seq<(String, JsonValue)>, update: Seq<(String, JsonValue)>, k: Seq<char>) -> Option<JsonValue> {
    match object_get(update, k) {
        Some(v) => Some(v),
        None => object_get(prev, k),
    }
}

/// What recording a migration state writes besides the state itself.
#[derive(Debug)]
pub struct MigrationStateUpdate {
    /// The new manifest.
    pub counts: JsonValue,
    pub backup_path: Option<String>,
    /// The stored message: the safe message for the error code, never the
    /// raw failure.
    pub error_message: Option<String>,
}

/// The entries an optional update writes.
pub open spec fn update_entries(update: Option<JsonValue>) -> Seq<(String, JsonValue)> {
    match update {
        Some(u) => manifest_entries(u),
        None => Seq::empty(),
    }
}

/// The backup directories listed once `update` is written over `prev`;
/// `None` where that entry is not an array of strings.
pub open spec fn merged_backup_paths(prev: Seq<(String, JsonValue)>, upd: Seq<(String, JsonValue)>) -> Option<Seq<Seq<char>>> {
    match merged_get(prev, upd, "backupPaths"@) {
        None => Some(Seq::empty()),
        Some(JsonValue::Array(items)) => text_items(items@),
        Some(_) => None,
    }
}

/// The manifest, backup path and message that recording a migration state
/// stores. `update` is written over the previous manifest key by key; every
/// backup directory ever recorded stays listed, in the order first seen; the
/// cached scan is dropped, since its counts describe the source before this
/// change.
pub fn plan_migration_state_update(
    previous_counts: JsonValue,
    previous_backup_path: Option<String>,
    update: Option<JsonValue>,
    backup_path: Option<String>,
    error_code: &Option<String>,
    error_message: Option<String>,
) -> (r: Result<MigrationStateUpdate, String>)
    requires
        previous_counts is Object || previous_counts is Null,
    ensures
        ({
            let prev = manifest_entries(previous_counts);
            let upd = update_entries(update);
            match r {
                Ok(up) => {
                    &&& (update matches Some(u) ==> u is Object)
                    &&& up.counts matches JsonValue::Object(e)
                    &&& forall|k: Seq<char>| #[trigger] object_get(manifest_entries(up.counts), k) == if k == "cachedScan"@
                        || k == "cachedScanFingerprint"@ {
                        None
                    } else if k == "backupPaths"@ {
                        object_get(manifest_entries(up.counts), k)
                    } else {
                        merged_get(prev, upd, k)
                    }
                    &&& merged_backup_paths(prev, upd) matches Some(base)
                    &&& object_get(manifest_entries(up.counts), "backupPaths"@) matches Some(bp)
                    &&& is_text_array(
                        bp,
                        append_missing(append_missing(base, opt_view(previous_backup_path)), opt_view(backup_path)),
                    )
                    &&& up.backup_path == match backup_path {
                        Some(p) => Some(p),
                        None => previous_backup_path,
                    }
                    &&& opt_view(up.error_message) == match error_message {
                        Some(_) => Some(
                            safe_message_for(
                                match opt_view(*error_code) {
                                    Some(c) => c,
                                    None => "MIGRATION_FAILED"@,
                                },
                            ),
                        ),
                        None => None,
                    }
                },
                Err(e) => if update matches Some(u) && !(u is Object) {
                    e@ == "Invalid migration state update"@
                } else {
                    merged_backup_paths(prev, upd) is None && e@
                        == "Invalid migration backup manifest: backupPaths must be an array"@
                },
            }
        }),
{
    let mut entries: Vec<(String, JsonValue)> = match previous_counts {
        JsonValue::Object(e) => e,
        _ => Vec::new(),
    };
    let ghost prev = entries@;
    let mut upd: Vec<(String, JsonValue)> = match update {
        Some(JsonValue::Object(u)) => u,
        Some(_) => {
            return Err(String::from_str("Invalid migration state update"));
        },
        None => Vec::new(),
    };
    let ghost orig = upd@;
    let n = upd.len();
    let mut i: usize = 0;
    assert(orig.take(0) =~= Seq::<(String, JsonValue)>::empty());
    assert(orig.subrange(0, orig.len() as int) =~= orig);
    while upd.len() > 0
        invariant
            i + upd@.len() == orig.len(),
            orig.len() == n,
            upd@ == orig.subrange(i as int, orig.len() as int),
            forall|k: Seq<char>| #[trigger] object_get(entries@, k) == merged_get(prev, orig.take(i as int), k),
        decreases upd.len(),
    {
        let (key, value) = upd.remove(0);
        assert((key, value) == orig[i as int]);
        let ghost before = entries@;
        json_object_insert(&mut entries, key.as_str(), value);
        assert(orig.take(i + 1).drop_last() =~= orig.take(i as int));
        assert(orig.take(i + 1).last() == orig[i as int]);
        i = i + 1;
        assert(upd@ =~= orig.subrange(i as int, orig.len() as int));
    }
    assert(orig.take(i as int) =~= orig);
    assert(object_get(entries@, "backupPaths"@) == merged_get(prev, orig, "backupPaths"@));
    let merged = JsonValue::Object(entries);
    let mut paths = match migration_backup_paths(&merged) {
        Ok(p) => p,
        Err(e) => {
            return Err(e);
        },
    };
    let ghost base = string_views(paths@);
    assert(merged_backup_paths(prev, orig) == Some(base));
    let mut entries = match merged {
        JsonValue::Object(e) => e,
        _ => Vec::new(),
    };
    push_missing(&mut paths, &previous_backup_path);
    push_missing(&mut paths, &backup_path);
    let ghost all = string_views(paths@);
    let arr = json_text_array(paths);
    let ghost before = entries@;
    json_object_insert(&mut entries, "backupPaths", arr);
    let ghost s1 = entries@;
    let _ = json_object_remove(&mut entries, "cachedScan");
    let ghost s2 = entries@;
    let _ = json_object_remove(&mut entries, "cachedScanFingerprint");
    proof {
        reveal_strlit("backupPaths");
        reveal_strlit("cachedScan");
        reveal_strlit("cachedScanFingerprint");
        assert("backupPaths"@ != "cachedScan"@) by {
            assert("backupPaths"@.len() != "cachedScan"@.len());
        }
        assert("backupPaths"@ != "cachedScanFingerprint"@) by {
            assert("backupPaths"@.len() != "cachedScanFingerprint"@.len());
        }
        assert(object_get(s1, "backupPaths"@) == Some(arr));
        assert(object_get(s2, "backupPaths"@) == Some(arr));
        assert(object_get(entries@, "backupPaths"@) == Some(arr));
        assert(merged_backup_paths(prev, orig) == Some(base));
    }
    let message = match error_message {
        Some(m) => {
            let code: &str = match error_code {
                Some(c) => c.as_str(),
                None => "MIGRATION_FAILED",
            };
            Some(migration_safe_message(code, m.as_str()))
        },
        None => None,
    };
    let path = match backup_path {
        Some(p) => Some(p),
        None => previous_backup_path,
    };
    Ok(MigrationStateUpdate { counts: JsonValue::Object(entries), backup_path: path, error_message: message })
}

/// A JSON number for a count.
pub open spec fn count_value(n: usize) -> JsonValue {
    JsonValue::Number(JsonNumber::PosInt(n as u64))
}

/// The preflight counts, as the manifest records them.
pub open spec fn records_counts(e: Seq<(String, JsonValue)>, p: MigrationPreflight) -> bool {
    &&& object_get(e, "databasePlaintextCount"@) == Some(count_value(p.database_plaintext_count))
    &&& object_get(e, "connectionCount"@) == Some(count_value(p.connection_count))
    &&& object_get(e, "pluginSecretCount"@) == Some(count_value(p.plugin_secret_count))
    &&& object_get(e, "aiSecretCount"@) == Some(count_value(p.ai_secret_count))
    &&& object_get(e, "tunnelSecretCount"@) == Some(count_value(p.tunnel_secret_count))
    &&& object_get(e, "syncCredentialCount"@) == Some(count_value(p.sync_credential_count))
}

/// The six count keys are distinct from each other and from the other
/// manifest keys.
proof fn lemma_count_keys_distinct()
    ensures
        "databasePlaintextCount"@ != "connectionCount"@,
        "databasePlaintextCount"@ != "pluginSecretCount"@,
        "databasePlaintextCount"@ != "aiSecretCount"@,
        "databasePlaintextCount"@ != "tunnelSecretCount"@,
        "databasePlaintextCount"@ != "syncCredentialCount"@,
        "connectionCount"@ != "pluginSecretCount"@,
        "connectionCount"@ != "aiSecretCount"@,
        "connectionCount"@ != "tunnelSecretCount"@,
        "connectionCount"@ != "syncCredentialCount"@,
        "pluginSecretCount"@ != "aiSecretCount"@,
        "pluginSecretCount"@ != "tunnelSecretCount"@,
        "pluginSecretCount"@ != "syncCredentialCount"@,
        "aiSecretCount"@ != "tunnelSecretCount"@,
        "aiSecretCount"@ != "syncCredentialCount"@,
        "tunnelSecretCount"@ != "syncCredentialCount"@,
        "legacyBakFiles"@ != "databasePlaintextCount"@,
        "legacyBakFiles"@ != "connectionCount"@,
        "legacyBakFiles"@ != "pluginSecretCount"@,
        "legacyBakFiles"@ != "aiSecretCount"@,
        "legacyBakFiles"@ != "tunnelSecretCount"@,
        "legacyBakFiles"@ != "syncCredentialCount"@,
{
    reveal_strlit("databasePlaintextCount");
    reveal_strlit("connectionCount");
    reveal_strlit("pluginSecretCount");
    reveal_strlit("aiSecretCount");
    reveal_strlit("tunnelSecretCount");
    reveal_strlit("syncCredentialCount");
    reveal_strlit("legacyBakFiles");
    assert("databasePlaintextCount"@.len() == 22);
    assert("connectionCount"@.len() == 15);
    assert("pluginSecretCount"@.len() == 17);
    assert("aiSecretCount"@.len() == 13);
    assert("tunnelSecretCount"@.len() == 17);
    assert("syncCredentialCount"@.len() == 19);
    assert("legacyBakFiles"@.len() == 14);
    assert("pluginSecretCount"@[0] == 'p');
    assert("tunnelSecretCount"@[0] == 't');
}

/// The counts of a preflight as a manifest object with exactly six keys.
pub fn migration_counts(preflight: &MigrationPreflight) -> (r: JsonValue)
    ensures
        r matches JsonValue::Object(e) && e@.len() == 6 && records_counts(e@, *preflight),
{
    let mut e: Vec<(String, JsonValue)> = Vec::new();
    e.push((String::from_str("databasePlaintextCount"), JsonValue::Number(JsonNumber::PosInt(preflight.database_plaintext_count as u64))));
    e.push((String::from_str("connectionCount"), JsonValue::Number(JsonNumber::PosInt(preflight.connection_count as u64))));
    e.push((String::from_str("pluginSecretCount"), JsonValue::Number(JsonNumber::PosInt(preflight.plugin_secret_count as u64))));
    e.push((String::from_str("aiSecretCount"), JsonValue::Number(JsonNumber::PosInt(preflight.ai_secret_count as u64))));
    e.push((String::from_str("tunnelSecretCount"), JsonValue::Number(JsonNumber::PosInt(preflight.tunnel_secret_count as u64))));
    e.push((String::from_str("syncCredentialCount"), JsonValue::Number(JsonNumber::PosInt(preflight.sync_credential_count as u64))));
    proof {
        reveal_strlit("databasePlaintextCount");
        reveal_strlit("connectionCount");
        reveal_strlit("pluginSecretCount");
        reveal_strlit("aiSecretCount");
        reveal_strlit("tunnelSecretCount");
        reveal_strlit("syncCredentialCount");
        lemma_count_keys_distinct();
        reveal_with_fuel(object_get, 7);
        assert(e@.drop_last().drop_last().drop_last().drop_last().drop_last().drop_last() =~= Seq::<(String, JsonValue)>::empty());
    }
    JsonValue::Object(e)
}

/// The name a migrated legacy file is renamed to.
pub open spec fn legacy_backup_name(name: Seq<char>) -> Seq<char> {
    name + ".bak"@
}

/// The name a migrated legacy file is renamed to.
pub fn legacy_json_backup_name(name: &str) -> (r: String)
    ensures
        r@ == legacy_backup_name(name@),
{
    String::from_str(name).concat(".bak")
}

/// The names of the legacy JSON files of older releases.
pub open spec fn legacy_json_names() -> Seq<Seq<char>> {
    seq![
        "connections.json"@,
        "secrets.json"@,
        "ai_config.json"@,
        "ai_conversations.json"@,
        "query_history.json"@,
        "sidebar_layout.json"@,
    ]
}

/// The names of the legacy JSON files of older releases.
pub fn legacy_json_file_names() -> (r: Vec<&'static str>)
    ensures
        r@.map_values(|s: &str| s@) == legacy_json_names(),
{
    let r = vec![
        "connections.json",
        "secrets.json",
        "ai_config.json",
        "ai_conversations.json",
        "query_history.json",
        "sidebar_layout.json",
    ];
    assert(r@.map_values(|s: &str| s@) =~= legacy_json_names());
    r
}

/// Whether `name` is the backup name of a legacy JSON file.
pub open spec fn is_legacy_backup_name(name: Seq<char>) -> bool {
    exists|i: int| 0 <= i < legacy_json_names().len() && name == legacy_backup_name(#[trigger] legacy_json_names()[i])
}

/// Whether `name` is the backup name of a legacy JSON file.
pub fn legacy_backup_name_allowed(name: &str) -> (r: bool)
    ensures
        r == is_legacy_backup_name(name@),
{
    let names = legacy_json_file_names();
    let mut i: usize = 0;
    while i < names.len()
        invariant
            i <= names.len(),
            names@.map_values(|s: &str| s@) == legacy_json_names(),
            forall|j: int| 0 <= j < i ==> name@ != legacy_backup_name(#[trigger] legacy_json_names()[j]),
        decreases names.len() - i,
    {
        let b = legacy_json_backup_name(names[i]);
        assert(names@.map_values(|s: &str| s@)[i as int] == names@[i as int]@);
        if str_eq(name, b.as_str()) {
            return true;
        }
        i = i + 1;
    }
    false
}

/// The prefix of every migration backup directory's name.
pub open spec fn backup_dir_prefix() -> Seq<char> {
    "dbx-secret-migration-"@
}

/// Whether a directory name is that of a migration backup.
pub fn is_migration_backup_dir_name(name: &str) -> (r: bool)
    ensures
        r == has_prefix(name@, backup_dir_prefix()),
{
    str_starts_with(name, "dbx-secret-migration-")
}

/// The bytes of a version-4 UUID made from 16 random bytes: the version
/// nibble of byte 6 set to 4 and the variant bits of byte 8 set to `10`.
pub open spec fn uuid_v4_bytes(b: Seq<u8>) -> Seq<u8> {
    b.update(6, (b[6] & 0x0fu8) | 0x40u8).update(8, (b[8] & 0x3fu8) | 0x80u8)
}

/// The hyphenated lower-case text of 16 UUID bytes (8-4-4-4-12 hex digits).
pub open spec fn hyphenated(b: Seq<u8>) -> Seq<char> {
    hex_of(b.subrange(0, 4)) + seq!['-'] + hex_of(b.subrange(4, 6)) + seq!['-'] + hex_of(b.subrange(6, 8))
        + seq!['-'] + hex_of(b.subrange(8, 10)) + seq!['-'] + hex_of(b.subrange(10, 16))
}

/// `getrandom::fill` on 16 bytes: the operating system's random source.
/// What it draws is chance, so only the length of a draw is stated; where
/// the source refuses, its error's text comes back.
#[verifier::external_body]
fn random_bytes_16() -> (r: Result<Vec<u8>, String>)
    ensures
        r matches Ok(v) ==> v@.len() == 16,
{
    let mut bytes = [0u8; 16];
    match getrandom::fill(&mut bytes) {
        Ok(()) => Ok(bytes.to_vec()),
        Err(e) => Err(e.to_string()),
    }
}

/// `uuid::Builder::from_random_bytes` then the `Uuid`'s `Display`: the
/// version and variant bits set in the bytes, written hyphenated in
/// lower-case hex.
#[verifier::external_body]
fn uuid_text_from_random_bytes(bytes: &[u8]) -> (r: String)
    requires
        bytes@.len() == 16,
    ensures
        r@ == hyphenated(uuid_v4_bytes(bytes@)),
{
    let mut b = [0u8; 16];
    b.copy_from_slice(bytes);
    uuid::Builder::from_random_bytes(b).into_uuid().to_string()
}

/// The name of a migration backup directory made from 16 random bytes: the
/// backup prefix and the version-4 UUID of those bytes.
pub fn migration_backup_dir_name_from(bytes: &[u8]) -> (r: String)
    requires
        bytes@.len() == 16,
    ensures
        r@ == backup_dir_prefix() + hyphenated(uuid_v4_bytes(bytes@)),
{
    let id = uuid_text_from_random_bytes(bytes);
    String::from_str("dbx-secret-migration-").concat(id.as_str())
}

/// A fresh name for a migration backup directory: the backup prefix and a
/// random version-4 UUID, made by `migration_backup_dir_name_from` from 16
/// bytes of the operating system's random source. Fails, with the random
/// source's error, where the operating system gives no random bytes.
pub fn new_migration_backup_dir_name() -> (r: Result<String, String>)
    ensures
        r matches Ok(n) ==> has_prefix(n@, backup_dir_prefix()) && exists|b: Seq<u8>|
            b.len() == 16 && n@ == backup_dir_prefix() + #[trigger] hyphenated(uuid_v4_bytes(b)),
{
    let bytes = random_bytes_16()?;
    let r = migration_backup_dir_name_from(bytes.as_slice());
    assert(r@.subrange(0, backup_dir_prefix().len() as int) =~= backup_dir_prefix());
    Ok(r)
}

/// `c` is the manifest of a completed migration: the preflight's counts and,
/// under `legacyBakFiles`, each renamed legacy file with its digest, in
/// order.
pub open spec fn is_succeeded_counts(c: JsonValue, preflight: MigrationPreflight, bak_files: Seq<(String, String)>) -> bool {
    c matches JsonValue::Object(e) && records_counts(e@, preflight) && (object_get(e@, "legacyBakFiles"@) matches Some(
        JsonValue::Object(files),
    ) && files@.len() == bak_files.len() && forall|i: int|
        0 <= i < bak_files.len() ==> #[trigger] files@[i].0@ == bak_files[i].0@ && files@[i].1 == JsonValue::Text(
            bak_files[i].1,
        ))
}

/// What happened in a migration run, as the driver reports it.
#[derive(Debug)]
pub enum MigrationRunEvent {
    /// The run is asked for.
    Begin,
    /// The backup was made at this path.
    BackupCreated(String),
    /// The backup could not be made.
    BackupFailed(String),
    /// Migrating and verifying succeeded from the backup at `backup_path`:
    /// the legacy files renamed, the secrets verified, and each renamed
    /// file's `.bak` name with its digest.
    Migrated { backup_path: String, renamed: Vec<String>, verified: usize, bak_files: Vec<(String, String)> },
    /// A step after the backup at `backup_path` failed (migrating,
    /// verifying, or recording success).
    RunFailed { backup_path: String, error: String },
}

/// What the driver does next, in order.
#[derive(Debug)]
pub enum MigrationRunAction {
    /// Record the run as started, with the preflight counts.
    RecordRunning { counts: JsonValue },
    /// Make the backup.
    CreateBackup,
    /// Record the backup path of the running migration.
    RecordBackup { backup_path: String },
    /// Migrate the database and the legacy files, verify, rename the files.
    Migrate,
    /// Put the database back as the backup holds it.
    RestoreBackup { backup_path: String },
    /// Record the run as failed.
    RecordFailed { backup_path: Option<String>, error_code: String, error_message: String },
    /// Record the run as succeeded, with its manifest.
    RecordSucceeded { backup_path: String, counts: JsonValue },
    /// End the run with this outcome.
    Finish(Result<MigrationReport, String>),
}

/// The next steps of a migration run after `event`. Asked to begin, a run
/// that is done reports that; one without a usable key records the failure
/// with its code and fails; otherwise it is recorded as running and the
/// backup is made. A failed backup is recorded as `BACKUP_FAILED` and fails.
/// With a backup, its path is recorded and the migration runs. A finished
/// migration is recorded as succeeded with its manifest and reported; a
/// failed one restores the backup, is recorded as failed with the error's
/// code, and fails with the error.
pub fn migration_run_step(preflight: MigrationPreflight, event: MigrationRunEvent) -> (r: Vec<MigrationRunAction>)
    ensures
        match event {
            MigrationRunEvent::Begin => if !preflight.needs_migration && state_is_done(preflight.state) {
                r@.len() == 1 && (r@[0] matches MigrationRunAction::Finish(Ok(rep)) && is_done_report(rep, preflight))
            } else if !preflight.key_provider_available && !preflight.key_creation_allowed {
                let code = match opt_view(preflight.error_code) {
                    Some(c) => c,
                    None => "KEY_PROVIDER_UNAVAILABLE"@,
                };
                &&& r@.len() == 2
                &&& r@[0] matches MigrationRunAction::RecordFailed { backup_path: None, error_code, error_message }
                    && error_code@ == code && error_message@ == code
                &&& r@[1] matches MigrationRunAction::Finish(Err(e)) && e@ == code
            } else {
                &&& r@.len() == 2
                &&& r@[0] matches MigrationRunAction::RecordRunning { counts } && counts matches JsonValue::Object(e)
                    && e@.len() == 6 && records_counts(e@, preflight)
                &&& r@[1] is CreateBackup
            },
            MigrationRunEvent::BackupFailed(error) => {
                &&& r@.len() == 2
                &&& r@[0] matches MigrationRunAction::RecordFailed { backup_path: None, error_code, error_message }
                    && error_code@ == "BACKUP_FAILED"@ && error_message@ == error@
                &&& r@[1] matches MigrationRunAction::Finish(Err(e)) && e@ == error@
            },
            MigrationRunEvent::BackupCreated(path) => {
                &&& r@.len() == 2
                &&& r@[0] matches MigrationRunAction::RecordBackup { backup_path } && backup_path@ == path@
                &&& r@[1] is Migrate
            },
            MigrationRunEvent::Migrated { backup_path: bp, renamed, verified, bak_files } => {
                &&& r@.len() == 2
                &&& r@[0] matches MigrationRunAction::RecordSucceeded { backup_path, counts } && backup_path@ == bp@
                    && is_succeeded_counts(counts, preflight, bak_files@)
                &&& r@[1] matches MigrationRunAction::Finish(Ok(rep)) && is_succeeded_report(
                    rep,
                    preflight,
                    bp@,
                    renamed@,
                    verified,
                )
            },
            MigrationRunEvent::RunFailed { backup_path: bp, error } => {
                &&& r@.len() == 3
                &&& r@[0] matches MigrationRunAction::RestoreBackup { backup_path } && backup_path@ == bp@
                &&& r@[1] matches MigrationRunAction::RecordFailed { backup_path: Some(b), error_code, error_message }
                    && b@ == bp@ && error_code@ == error_code_for(error@) && error_message@ == error@
                &&& r@[2] matches MigrationRunAction::Finish(Err(e)) && e@ == error@
            },
        },
{
    let ghost p0 = preflight;
    let mut out: Vec<MigrationRunAction> = Vec::new();
    match event {
        MigrationRunEvent::Begin => {
            let counts = migration_counts(&preflight);
            match decide_migration_start(preflight) {
                MigrationStart::AlreadyDone(rep) => {
                    out.push(MigrationRunAction::Finish(Ok(rep)));
                },
                MigrationStart::Refused(code) => {
                    let message = code.clone();
                    let error = code.clone();
                    out.push(
                        MigrationRunAction::RecordFailed { backup_path: None, error_code: code, error_message: message },
                    );
                    out.push(MigrationRunAction::Finish(Err(error)));
                },
                MigrationStart::Proceed => {
                    out.push(MigrationRunAction::RecordRunning { counts });
                    out.push(MigrationRunAction::CreateBackup);
                },
            }
        },
        MigrationRunEvent::BackupFailed(error) => {
            let message = error.clone();
            out.push(
                MigrationRunAction::RecordFailed {
                    backup_path: None,
                    error_code: String::from_str("BACKUP_FAILED"),
                    error_message: message,
                },
            );
            out.push(MigrationRunAction::Finish(Err(error)));
        },
        MigrationRunEvent::BackupCreated(path) => {
            out.push(MigrationRunAction::RecordBackup { backup_path: path });
            out.push(MigrationRunAction::Migrate);
        },
        MigrationRunEvent::Migrated { backup_path, renamed, verified, bak_files } => {
            let counts = succeeded_migration_counts(&preflight, bak_files);
            let path = backup_path.clone();
            let rep = succeeded_migration_report(&preflight, backup_path, renamed, verified);
            out.push(MigrationRunAction::RecordSucceeded { backup_path: path, counts });
            out.push(MigrationRunAction::Finish(Ok(rep)));
        },
        MigrationRunEvent::RunFailed { backup_path, error } => {
            let code = String::from_str(migration_error_code(error.as_str()));
            let message = error.clone();
            let path = backup_path.clone();
            out.push(MigrationRunAction::RestoreBackup { backup_path });
            out.push(
                MigrationRunAction::RecordFailed { backup_path: Some(path), error_code: code, error_message: message },
            );
            out.push(MigrationRunAction::Finish(Err(error)));
        },
    }
    out
}

/// The manifest of a completed migration: the preflight counts and, under
/// `legacyBakFiles`, the digest of each renamed legacy file.
pub fn succeeded_migration_counts(preflight: &MigrationPreflight, bak_files: Vec<(String, String)>) -> (r: JsonValue)
    ensures
        is_succeeded_counts(r, *preflight, bak_files@),
{
    let counts = migration_counts(preflight);
    let mut e = match counts {
        JsonValue::Object(e) => e,
        _ => Vec::new(),
    };
    let ghost e0 = e@;
    let mut files: Vec<(String, JsonValue)> = Vec::new();
    let mut rest = bak_files;
    let ghost orig = rest@;
    let n = rest.len();
    let mut i: usize = 0;
    assert(orig.subrange(0, orig.len() as int) =~= orig);
    while rest.len() > 0
        invariant
            i + rest@.len() == orig.len(),
            orig.len() == n,
            rest@ == orig.subrange(i as int, orig.len() as int),
            files@.len() == i,
            forall|j: int| 0 <= j < i ==> #[trigger] files@[j].0@ == orig[j].0@ && files@[j].1 == JsonValue::Text(orig[j].1),
        decreases rest.len(),
    {
        let (name, digest) = rest.remove(0);
        assert((name, digest) == orig[i as int]);
        files.push((name, JsonValue::Text(digest)));
        i = i + 1;
        assert(rest@ =~= orig.subrange(i as int, orig.len() as int));
    }
    let ghost fv = files@;
    json_object_insert(&mut e, "legacyBakFiles", JsonValue::Object(files));
    proof {
        reveal_strlit("legacyBakFiles");
        reveal_strlit("databasePlaintextCount");
        reveal_strlit("connectionCount");
        reveal_strlit("pluginSecretCount");
        reveal_strlit("aiSecretCount");
        reveal_strlit("tunnelSecretCount");
        reveal_strlit("syncCredentialCount");
        lemma_count_keys_distinct();
        assert(object_get(e@, "databasePlaintextCount"@) == object_get(e0, "databasePlaintextCount"@));
        assert(object_get(e@, "connectionCount"@) == object_get(e0, "connectionCount"@));
        assert(object_get(e@, "pluginSecretCount"@) == object_get(e0, "pluginSecretCount"@));
        assert(object_get(e@, "aiSecretCount"@) == object_get(e0, "aiSecretCount"@));
        assert(object_get(e@, "tunnelSecretCount"@) == object_get(e0, "tunnelSecretCount"@));
        assert(object_get(e@, "syncCredentialCount"@) == object_get(e0, "syncCredentialCount"@));
    }
    JsonValue::Object(e)
}

/// What cleaning up after a successful migration removes: the recorded
/// backup directories, and the legacy `.bak` files with their expected
/// digests, or the manifest error that forbids touching them.
#[derive(Debug)]
pub struct BackupCleanupPlan {
    pub backup_dirs: Vec<String>,
    pub legacy_backups: Result<Vec<(String, Option<String>)>, String>,
}

/// The legacy backups listed in a manifest, each with its expected digest;
/// `None` where a listed name is not a legacy backup name.
pub open spec fn listed_legacy_backups(counts: JsonValue) -> Option<Seq<(Seq<char>, Option<Seq<char>>)>> {
    match counts {
        JsonValue::Object(e) => match object_get(e@, "legacyBakFiles"@) {
            Some(JsonValue::Object(files)) => if forall|i: int|
                0 <= i < files@.len() ==> is_legacy_backup_name(#[trigger] files@[i].0@) {
                Some(
                    files@.map_values(
                        |f: (String, JsonValue)|
                            (
                                f.0@,
                                match f.1 {
                                    JsonValue::Text(t) => Some(t@),
                                    _ => None,
                                },
                            ),
                    ),
                )
            } else {
                None
            },
            _ => Some(Seq::empty()),
        },
        _ => Some(Seq::empty()),
    }
}

/// The view of a planned legacy backup list.
pub open spec fn legacy_plan_view(v: Seq<(String, Option<String>)>) -> Seq<(Seq<char>, Option<Seq<char>>)> {
    v.map_values(|f: (String, Option<String>)| (f.0@, opt_view(f.1)))
}

/// Plans the removal of migration backups, which is allowed only after a
/// successful migration. The directories are those the manifest lists plus
/// the recorded backup path, each once.
pub fn plan_backup_cleanup(state: &MigrationState, counts: &JsonValue, backup_path: Option<String>) -> (r: Result<
    BackupCleanupPlan,
    String,
>)
    ensures
        !(*state is Succeeded) ==> (r matches Err(e) && e@ == "Migration backups may only be cleaned after success"@),
        *state is Succeeded ==> match r {
            Ok(plan) => {
                &&& backup_paths_of(*counts) matches Some(base)
                &&& string_views(plan.backup_dirs@) == append_missing(base, opt_view(backup_path))
                &&& match plan.legacy_backups {
                    Ok(l) => listed_legacy_backups(*counts) == Some(legacy_plan_view(l@)),
                    Err(m) => listed_legacy_backups(*counts) is None && m@ == "Invalid legacy backup manifest"@,
                }
            },
            Err(e) => backup_paths_of(*counts) is None && e@
                == "Invalid migration backup manifest: backupPaths must be an array"@,
        },
{
    match state {
        MigrationState::Succeeded => {},
        _ => {
            return Err(String::from_str("Migration backups may only be cleaned after success"));
        },
    }
    let mut dirs = match migration_backup_paths(counts) {
        Ok(p) => p,
        Err(e) => {
            return Err(e);
        },
    };
    push_missing(&mut dirs, &backup_path);
    let legacy = plan_legacy_backups(counts);
    Ok(BackupCleanupPlan { backup_dirs: dirs, legacy_backups: legacy })
}

/// Whether a listed backup directory may be removed, given its canonical
/// path and whether it is a symbolic link: it lies directly in the canonical
/// data directory `root` and carries the backup prefix.
pub open spec fn backup_dir_removable(root: Seq<char>, canonical: Seq<char>, is_symlink: bool) -> bool {
    &&& path_parent_of(canonical) == Some(root)
    &&& path_file_name_of(canonical) matches Some(n) && has_prefix(n, backup_dir_prefix())
    &&& !is_symlink
}

/// Checks every listed backup directory that exists, given `(canonical
/// path, is a symbolic link)` for each, before anything is removed: all must
/// lie directly in the canonical data directory `root` and carry the backup
/// prefix.
pub fn validate_backup_dirs(root: &str, candidates: &[(String, bool)]) -> (r: Result<(), String>)
    ensures
        r is Ok <==> forall|i: int|
            0 <= i < candidates@.len() ==> backup_dir_removable(root@, #[trigger] candidates@[i].0@, candidates@[i].1),
        r matches Err(e) ==> e@ == "Invalid migration backup path"@,
{
    let mut i: usize = 0;
    while i < candidates.len()
        invariant
            i <= candidates.len(),
            forall|j: int| 0 <= j < i ==> backup_dir_removable(root@, #[trigger] candidates@[j].0@, candidates@[j].1),
        decreases candidates.len() - i,
    {
        let (path, is_symlink) = &candidates[i];
        let parent_ok = match path_parent(path.as_str()) {
            Some(p) => str_eq(p.as_str(), root),
            None => false,
        };
        let name_ok = match path_file_name(path.as_str()) {
            Some(n) => is_migration_backup_dir_name(n.as_str()),
            None => false,
        };
        if !parent_ok || !name_ok || *is_symlink {
            return Err(String::from_str("Invalid migration backup path"));
        }
        i = i + 1;
    }
    Ok(())
}

/// Whether a listed legacy backup may be removed: it is no symbolic link and
/// its digest is the one the manifest recorded.
pub open spec fn legacy_backup_unchanged(expected: Option<Seq<char>>, digest: Seq<char>, is_symlink: bool) -> bool {
    !is_symlink && expected == Some(digest)
}

/// Checks every listed legacy backup that exists, given `(recorded digest,
/// current digest, is a symbolic link)` for each, before anything is
/// removed.
pub fn validate_legacy_backups(checks: &[(Option<String>, String, bool)]) -> (r: Result<(), String>)
    ensures
        r is Ok <==> forall|i: int|
            0 <= i < checks@.len() ==> legacy_backup_unchanged(
                opt_view(#[trigger] checks@[i].0),
                checks@[i].1@,
                checks@[i].2,
            ),
        r matches Err(e) ==> e@ == "Legacy backup changed; manual inspection is required"@,
{
    let mut i: usize = 0;
    while i < checks.len()
        invariant
            i <= checks.len(),
            forall|j: int|
                0 <= j < i ==> legacy_backup_unchanged(opt_view(#[trigger] checks@[j].0), checks@[j].1@, checks@[j].2),
        decreases checks.len() - i,
    {
        let (expected, digest, is_symlink) = &checks[i];
        let same = match expected {
            Some(e) => str_eq(e.as_str(), digest.as_str()),
            None => false,
        };
        if *is_symlink || !same {
            return Err(String::from_str("Legacy backup changed; manual inspection is required"));
        }
        i = i + 1;
    }
    Ok(())
}

fn plan_legacy_backups(counts: &JsonValue) -> (r: Result<Vec<(String, Option<String>)>, String>)
    ensures
        match r {
            Ok(l) => listed_legacy_backups(*counts) == Some(legacy_plan_view(l@)),
            Err(m) => listed_legacy_backups(*counts) is None && m@ == "Invalid legacy backup manifest"@,
        },
{
    let mut out: Vec<(String, Option<String>)> = Vec::new();
    if let JsonValue::Object(e) = counts {
        if let Some(JsonValue::Object(files)) = json_object_get(e.as_slice(), "legacyBakFiles") {
            let mut i: usize = 0;
            while i < files.len()
                invariant
                    i <= files.len(),
                    *counts == JsonValue::Object(*e),
                    object_get(e@, "legacyBakFiles"@) == Some(JsonValue::Object(*files)),
                    forall|j: int| 0 <= j < i ==> is_legacy_backup_name(#[trigger] files@[j].0@),
                    legacy_plan_view(out@) == files@.take(i as int).map_values(
                        |f: (String, JsonValue)|
                            (
                                f.0@,
                                match f.1 {
                                    JsonValue::Text(t) => Some(t@),
                                    _ => None,
                                },
                            ),
                    ),
                decreases files.len() - i,
            {
                let (name, hash) = &files[i];
                if !legacy_backup_name_allowed(name.as_str()) {
                    assert(!is_legacy_backup_name(files@[i as int].0@));
                    assert(object_get(e@, "legacyBakFiles"@) == Some(JsonValue::Object(*files)));
                    assert(listed_legacy_backups(*counts) is None);
                    return Err(String::from_str("Invalid legacy backup manifest"));
                }
                let h = match hash {
                    JsonValue::Text(t) => Some(t.clone()),
                    _ => None,
                };
                let ghost prev = out@;
                out.push((name.clone(), h));
                assert(legacy_plan_view(out@) =~= legacy_plan_view(prev).push((name@, opt_view(h))));
                i = i + 1;
                assert(files@.take(i as int) =~= files@.take(i - 1).push(files@[i - 1]));
            }
            assert(files@.take(files.len() as int) =~= files@);
            assert(object_get(e@, "legacyBakFiles"@) == Some(JsonValue::Object(*files)));
            return Ok(out);
        }
    }
    assert(legacy_plan_view(out@) =~= Seq::<(Seq<char>, Option<Seq<char>>)>::empty());
    Ok(out)
}

/// Sync credentials kept in the settings: the local device secret and the
/// sync passphrase where set, and one per stored WebDAV password (the
/// passwords object holds one entry per account).
pub open spec fn sync_credentials_in(settings: Seq<(String, JsonValue)>) -> nat {
    (if object_get(settings, "local_device_secret"@) matches Some(v) && is_nonempty_value(v) {
        1nat
    } else {
        0nat
    }) + (if object_get(settings, "webdav_sync_secrets_passphrase"@) matches Some(v) && is_nonempty_value(v) {
        1nat
    } else {
        0nat
    }) + match entries_of(object_get(settings, "webdav_passwords"@)) {
        Some(e) => e.len(),
        None => 0nat,
    }
}

/// Counts the sync credentials kept in the settings.
pub fn sync_credential_count(settings: &Vec<(String, JsonValue)>) -> (r: u128)
    ensures
        r == sync_credentials_in(settings@),
{
    let a: u128 = match json_object_get(settings.as_slice(), "local_device_secret") {
        Some(v) => if nonempty_json_value(v) {
            1
        } else {
            0
        },
        None => 0,
    };
    let b: u128 = match json_object_get(settings.as_slice(), "webdav_sync_secrets_passphrase") {
        Some(v) => if nonempty_json_value(v) {
            1
        } else {
            0
        },
        None => 0,
    };
    let c: u128 = match json_object_get(settings.as_slice(), "webdav_passwords") {
        Some(JsonValue::Object(e)) => e.len() as u128,
        _ => 0,
    };
    a + b + c
}

/// An `i64` held by a JSON number.
pub open spec fn i64_of(v: JsonValue) -> Option<i64> {
    match v {
        JsonValue::Number(JsonNumber::PosInt(n)) => if n <= i64::MAX {
            Some(n as i64)
        } else {
            None
        },
        JsonValue::Number(JsonNumber::NegInt(i)) => Some(i),
        _ => None,
    }
}

/// The seven counts of a cached scan, when `v` is an array of exactly seven
/// integers that fit in `i64`.
pub open spec fn scan_of(v: Option<JsonValue>) -> Option<MigrationScan> {
    match v {
        Some(JsonValue::Array(items)) => if items@.len() == 7 && forall|i: int| 0 <= i < 7 ==> (#[trigger] i64_of(items@[i])) is Some {
            Some(
                MigrationScan {
                    plaintext: i64_of(items@[0]).unwrap(),
                    encrypted: i64_of(items@[1]).unwrap(),
                    connections: i64_of(items@[2]).unwrap(),
                    plugins: i64_of(items@[3]).unwrap(),
                    ai: i64_of(items@[4]).unwrap(),
                    tunnels: i64_of(items@[5]).unwrap(),
                    sync_credentials: i64_of(items@[6]).unwrap(),
                },
            )
        } else {
            None
        },
        _ => None,
    }
}

/// A cached scan from an older release, reusable only when both the
/// recorded source fingerprint and the cache's own fingerprint are the
/// current one.
pub open spec fn reusable_scan(stored_fp: Option<Seq<char>>, current: Seq<char>, counts: Option<JsonValue>) -> Option<MigrationScan> {
    if stored_fp == Some(current) {
        match counts {
            Some(JsonValue::Object(e)) => if text_of(object_get(e@, "cachedScanFingerprint"@)) == Some(current) {
                scan_of(object_get(e@, "cachedScan"@))
            } else {
                None
            },
            _ => None,
        }
    } else {
        None
    }
}

fn json_i64(v: &JsonValue) -> (r: Option<i64>)
    ensures
        r == i64_of(*v),
{
    match v {
        JsonValue::Number(JsonNumber::PosInt(n)) => if *n <= i64::MAX as u64 {
            Some(*n as i64)
        } else {
            None
        },
        JsonValue::Number(JsonNumber::NegInt(i)) => Some(*i),
        _ => None,
    }
}

/// The cached scan, where the stored manifest holds one for the current
/// source.
pub fn cached_migration_scan(stored_fingerprint: &Option<String>, current_fingerprint: &str, counts: Option<&JsonValue>) -> (r: Option<MigrationScan>)
    ensures
        r == reusable_scan(opt_view(*stored_fingerprint), current_fingerprint@, match counts {
            Some(c) => Some(*c),
            None => None,
        }),
{
    let same = match stored_fingerprint {
        Some(f) => str_eq(f.as_str(), current_fingerprint),
        None => false,
    };
    if !same {
        return None;
    }
    let e = match counts {
        Some(JsonValue::Object(e)) => e,
        _ => {
            return None;
        },
    };
    let fp_ok = match json_as_str(json_object_get(e.as_slice(), "cachedScanFingerprint")) {
        Some(f) => str_eq(f, current_fingerprint),
        None => false,
    };
    if !fp_ok {
        return None;
    }
    match json_object_get(e.as_slice(), "cachedScan") {
        Some(JsonValue::Array(items)) => {
            if items.len() != 7 {
                return None;
            }
            let ghost target = reusable_scan(opt_view(*stored_fingerprint), current_fingerprint@, match counts {
                Some(c) => Some(*c),
                None => None,
            });
            assert(target == scan_of(Some(JsonValue::Array(*items))));
            let mut vals: Vec<i64> = Vec::new();
            let mut i: usize = 0;
            while i < 7
                invariant
                    items@.len() == 7,
                    i <= 7,
                    vals@.len() == i,
                    target == scan_of(Some(JsonValue::Array(*items))),
                    target == reusable_scan(opt_view(*stored_fingerprint), current_fingerprint@, match counts {
                        Some(c) => Some(*c),
                        None => None,
                    }),
                    forall|j: int| 0 <= j < i ==> #[trigger] i64_of(items@[j]) == Some(vals@[j]),
                decreases 7 - i,
            {
                match json_i64(&items[i]) {
                    Some(x) => vals.push(x),
                    None => {
                        assert(i64_of(items@[i as int]) is None);
                        assert(!(forall|j: int| 0 <= j < 7 ==> (#[trigger] i64_of(items@[j])) is Some));
                        return None;
                    },
                }
                i = i + 1;
            }
            proof {
                assert(forall|j: int| 0 <= j < 7 ==> (#[trigger] i64_of(items@[j])) is Some);
                assert(i64_of(items@[0]) == Some(vals@[0]));
                assert(i64_of(items@[1]) == Some(vals@[1]));
                assert(i64_of(items@[2]) == Some(vals@[2]));
                assert(i64_of(items@[3]) == Some(vals@[3]));
                assert(i64_of(items@[4]) == Some(vals@[4]));
                assert(i64_of(items@[5]) == Some(vals@[5]));
                assert(i64_of(items@[6]) == Some(vals@[6]));
            }
            Some(
                MigrationScan {
                    plaintext: vals[0],
                    encrypted: vals[1],
                    connections: vals[2],
                    plugins: vals[3],
                    ai: vals[4],
                    tunnels: vals[5],
                    sync_credentials: vals[6],
                },
            )
        },
        _ => None,
    }
}

/// A state read back under the name it was stored under is the same state.
pub proof fn lemma_state_name_round_trip(s: MigrationState)
    ensures
        state_from_name(state_name(s)) == s,
{
    reveal_strlit("pending");
    reveal_strlit("running");
    reveal_strlit("succeeded");
    reveal_strlit("failed");
    reveal_strlit("not_required");
    assert("pending"@.len() == 7);
    assert("running"@.len() == 7);
    assert("succeeded"@.len() == 9);
    assert("failed"@.len() == 6);
    assert("not_required"@.len() == 12);
    assert("pending"@[0] != "running"@[0]);
}

/// Cleanup accepts the backup of every legacy file the migration renames.
pub proof fn lemma_legacy_backups_accepted(i: int)
    requires
        0 <= i < legacy_json_names().len(),
    ensures
        is_legacy_backup_name(legacy_backup_name(legacy_json_names()[i])),
{
}

/// Whether a legacy settings value holds a secret worth storing: anything
/// but `null` and the empty string.
pub open spec fn storable_secret(v: JsonValue) -> bool {
    match v {
        JsonValue::Null => false,
        JsonValue::Text(t) => t@.len() > 0,
        _ => true,
    }
}

/// The secret to store under `key` for a legacy settings value, if any.
pub open spec fn legacy_secret_item(key: Seq<char>, v: Option<JsonValue>) -> Seq<(Seq<char>, JsonValue)> {
    match v {
        Some(x) => if storable_secret(x) {
            seq![(key, x)]
        } else {
            Seq::empty()
        },
        None => Seq::empty(),
    }
}

/// The secrets of the legacy per-account WebDAV passwords, in order, each
/// under `webdav_password.` and its account.
pub open spec fn legacy_account_items(accounts: Seq<(String, JsonValue)>) -> Seq<(Seq<char>, JsonValue)>
    decreases accounts.len(),
{
    if accounts.len() == 0 {
        Seq::empty()
    } else {
        legacy_account_items(accounts.drop_last()) + legacy_secret_item(
            "webdav_password."@ + accounts.last().0@,
            Some(accounts.last().1),
        )
    }
}

/// The legacy per-account WebDAV passwords of a settings object.
pub open spec fn legacy_accounts(settings: Seq<(String, JsonValue)>) -> Seq<(String, JsonValue)> {
    match entries_of(object_get(settings, "webdav_passwords"@)) {
        Some(e) => e,
        None => Seq::empty(),
    }
}

/// The move of credentials that older releases kept in the settings: where
/// the settings hold a device secret, a sync passphrase or any WebDAV
/// account password, the settings without those three keys and the secrets
/// to store (device secret, passphrase, then each account's password);
/// otherwise nothing moves.
pub open spec fn settings_secret_migration(settings: Seq<(String, JsonValue)>) -> Option<
    (Seq<(String, JsonValue)>, Seq<(Seq<char>, JsonValue)>),
> {
    let d = object_get(settings, "local_device_secret"@);
    let p = object_get(settings, "webdav_sync_secrets_passphrase"@);
    let a = legacy_accounts(settings);
    if d is None && p is None && a.len() == 0 {
        None
    } else {
        Some(
            (
                object_without(
                    object_without(object_without(settings, "local_device_secret"@), "webdav_sync_secrets_passphrase"@),
                    "webdav_passwords"@,
                ),
                legacy_secret_item("local_device_secret"@, d) + legacy_secret_item(
                    "webdav_sync_secrets_passphrase"@,
                    p,
                ) + legacy_account_items(a),
            ),
        )
    }
}

/// Views of `(key, value)` items.
pub open spec fn item_views(items: Seq<(String, JsonValue)>) -> Seq<(Seq<char>, JsonValue)> {
    items.map_values(|i: (String, JsonValue)| (i.0@, i.1))
}

fn storable_secret_value(v: &JsonValue) -> (r: bool)
    ensures
        r == storable_secret(*v),
{
    match v {
        JsonValue::Null => false,
        JsonValue::Text(t) => t.as_str().unicode_len() > 0,
        _ => true,
    }
}

fn push_legacy_item(items: &mut Vec<(String, JsonValue)>, key: String, v: Option<JsonValue>)
    ensures
        item_views(final(items)@) == item_views(old(items)@) + legacy_secret_item(key@, v),
{
    let ghost before = item_views(items@);
    match v {
        Some(x) => if storable_secret_value(&x) {
            let ghost pair = (key@, x);
            items.push((key, x));
            assert(item_views(items@) =~= before + seq![pair]);
        } else {
            assert(item_views(items@) =~= before + Seq::<(Seq<char>, JsonValue)>::empty());
        },
        None => {
            assert(item_views(items@) =~= before + Seq::<(Seq<char>, JsonValue)>::empty());
        },
    }
}

/// Plans the move of legacy credentials out of the settings object: the
/// settings to keep and the secrets to store, or `None` where the settings
/// hold none of them.
pub fn plan_app_settings_secret_migration(settings: Vec<(String, JsonValue)>) -> (r: Option<
    (Vec<(String, JsonValue)>, Vec<(String, JsonValue)>),
>)
    ensures
        match (r, settings_secret_migration(settings@)) {
            (Some((kept, items)), Some((k, i))) => kept@ == k && item_views(items@) == i,
            (None, None) => true,
            _ => false,
        },
{
    let ghost s0 = settings@;
    proof {
        reveal_strlit("local_device_secret");
        reveal_strlit("webdav_sync_secrets_passphrase");
        reveal_strlit("webdav_passwords");
    }
    let mut s = settings;
    let device = json_object_remove(&mut s, "local_device_secret");
    let passphrase = json_object_remove(&mut s, "webdav_sync_secrets_passphrase");
    assert(object_get(s0, "webdav_sync_secrets_passphrase"@) == passphrase) by {
        assert("webdav_sync_secrets_passphrase"@.len() != "local_device_secret"@.len());
    }
    let webdav = json_object_remove(&mut s, "webdav_passwords");
    assert(object_get(s0, "webdav_passwords"@) == webdav) by {
        assert("webdav_passwords"@.len() != "local_device_secret"@.len());
        assert("webdav_passwords"@.len() != "webdav_sync_secrets_passphrase"@.len());
    }
    let accounts: Vec<(String, JsonValue)> = match webdav {
        Some(JsonValue::Object(e)) => e,
        _ => Vec::new(),
    };
    assert(accounts@ == legacy_accounts(s0));
    if device.is_none() && passphrase.is_none() && accounts.len() == 0 {
        return None;
    }
    let mut items: Vec<(String, JsonValue)> = Vec::new();
    push_legacy_item(&mut items, String::from_str("local_device_secret"), device);
    push_legacy_item(&mut items, String::from_str("webdav_sync_secrets_passphrase"), passphrase);
    let ghost head = item_views(items@);
    let ghost all = accounts@;
    let mut rest = accounts;
    let total: usize = rest.len();
    let mut n: usize = 0;
    assert(all.subrange(0, all.len() as int) =~= all);
    assert(all.take(0) =~= Seq::<(String, JsonValue)>::empty());
    while rest.len() > 0
        invariant
            n + rest@.len() == all.len(),
            all.len() == total,
            rest@ == all.subrange(n as int, all.len() as int),
            item_views(items@) == head + legacy_account_items(all.take(n as int)),
        decreases rest.len(),
    {
        let (account, value) = rest.remove(0);
        assert((account, value) == all[n as int]);
        assert(all.take(n + 1).drop_last() =~= all.take(n as int));
        let key = String::from_str("webdav_password.").concat(account.as_str());
        let ghost before = item_views(items@);
        push_legacy_item(&mut items, key, Some(value));
        assert(item_views(items@) =~= head + legacy_account_items(all.take(n + 1)));
        n = n + 1;
        assert(rest@ =~= all.subrange(n as int, all.len() as int));
    }
    assert(all.take(n as int) =~= all);
    Some((s, items))
}

/// The stable codes a migration failure is reported with.
pub open spec fn migration_error_codes() -> Set<Seq<char>> {
    set![
        "MISSING_MANAGED_KEY"@,
        "ENCRYPTED_DATA_KEY_MISSING"@,
        "SECRET_KEY_MISMATCH"@,
        "SECRET_KEY_INVALID"@,
        "KEY_FILE_UNAVAILABLE"@,
        "MISSING_EXTERNAL_KEY"@,
        "KEY_PROVIDER_UNAVAILABLE"@,
        "LEGACY_JSON_INVALID"@,
        "VERIFICATION_FAILED"@,
        "BACKUP_FAILED"@,
        "MIGRATION_FAILED"@,
    ]
}

/// A failure's code is always one of the stable codes, never text of the
/// message; a missing managed key is reported as such whatever else the
/// message says; a key-provider failure is reported as such unless an
/// earlier key problem is named; and a message naming no known problem is
/// `MIGRATION_FAILED`.
pub proof fn lemma_error_codes_are_stable(e: Seq<char>)
    ensures
        migration_error_codes().contains(error_code_for(e)),
        has_substring(e, "MISSING_MANAGED_KEY"@) ==> error_code_for(e) == "MISSING_MANAGED_KEY"@,
        has_substring(e, "ENCRYPTED_DATA_KEY_MISSING"@) && !has_substring(e, "MISSING_MANAGED_KEY"@) ==> error_code_for(e)
            == "ENCRYPTED_DATA_KEY_MISSING"@,
        !has_substring(e, "MISSING_MANAGED_KEY"@) && !has_substring(e, "ENCRYPTED_DATA_KEY_MISSING"@)
            && !has_substring(e, "SECRET_KEY_MISMATCH"@) && !has_substring(e, "SECRET_KEY_INVALID"@)
            && !has_substring(e, "KEY_FILE_UNAVAILABLE"@) && !has_substring(e, "MISSING_EXTERNAL_KEY"@)
            && !has_substring(e, "MISSING_PERSISTENT_KEY"@) && has_substring(e, "KEY_PROVIDER_UNAVAILABLE"@)
            ==> error_code_for(e) == "KEY_PROVIDER_UNAVAILABLE"@,
        !has_substring(e, "MISSING_MANAGED_KEY"@) && !has_substring(e, "ENCRYPTED_DATA_KEY_MISSING"@)
            && !has_substring(e, "SECRET_KEY_MISMATCH"@) && !has_substring(e, "SECRET_KEY_INVALID"@)
            && !has_substring(e, "KEY_FILE_UNAVAILABLE"@) && !has_substring(e, "MISSING_EXTERNAL_KEY"@)
            && !has_substring(e, "MISSING_PERSISTENT_KEY"@) && !has_substring(e, "KEY_PROVIDER_UNAVAILABLE"@)
            && !has_substring(e, "JSON"@) && !has_substring(e, "json"@) && !has_substring(e, "verification"@)
            && !has_substring(e, "plaintext remains"@) && !has_substring(e, "backup"@) ==> error_code_for(e)
            == "MIGRATION_FAILED"@,
{
}

} // verus!
