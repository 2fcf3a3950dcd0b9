//! The storage handle: where the database lives and how its secret key is
//! chosen.

use vstd::prelude::*;
use crate::text::has_prefix;

verus! {

/// Who supplies the key that encrypts stored secrets.
#[derive(Debug, Clone, Copy, PartialEq, Eq)]
pub enum SecretKeyPolicy {
    /// The platform credential store, creating a key when none exists.
    PlatformDefault,
    /// Only an externally configured key; never created here.
    ExternalOnly,
    /// A key file managed inside the data directory.
    ManagedDataDir,
}

/// A handle on the settings database.
#[derive(Debug, Clone)]
pub struct Storage {
    /// Path of the SQLite database file; its parent is the data directory.
    path: String,
    secret_key_policy: SecretKeyPolicy,
    /// Whether a write may provision a missing key.
    secret_key_creation_allowed: bool,
}

/// The text of the parent directory of a path, as `Path::parent` gives it
/// (`None` for a root or an empty path).
pub uninterp spec fn path_parent_of(path: Seq<char>) -> Option<Seq<char>>;

/// `Path::parent` of a path given as text, and that parent as text.
///
/// The parent depends on the path alone and is named `path_parent_of`. It
/// drops the final component, so it is a proper prefix of the path's text;
/// which prefix depends on the platform's separators, which is why it is
/// named rather than stated.
#[verifier::external_body]
pub(crate) fn path_parent(path: &str) -> (r: Option<String>)
    ensures
        match r {
            Some(q) => path_parent_of(path@) == Some(q@),
            None => path_parent_of(path@) is None,
        },
        path@.len() == 0 ==> r is None,
        r matches Some(q) ==> has_prefix(path@, q@) && q@.len() < path@.len(),
{
    std::path::Path::new(path).parent().map(|p| p.to_string_lossy().to_string())
}

/// The final component of a path given as text, as `Path::file_name`
/// gives it (`None` for a root, an empty path, or one ending in `..`).
pub uninterp spec fn path_file_name_of(path: Seq<char>) -> Option<Seq<char>>;

/// `Path::file_name` of a path given as text, as text. The name depends on
/// the path alone and is named `path_file_name_of`; which text it is depends
/// on the platform's separators.
#[verifier::external_body]
pub(crate) fn path_file_name(path: &str) -> (r: Option<String>)
    ensures
        match r {
            Some(n) => path_file_name_of(path@) == Some(n@),
            None => path_file_name_of(path@) is None,
        },
{
    std::path::Path::new(path).file_name().and_then(|n| n.to_str()).map(|n| n.to_string())
}

/// The data directory for a parent lookup's result: the parent, or `.`.
pub open spec fn data_dir_for(parent: Option<Seq<char>>) -> Seq<char> {
    match parent {
        Some(q) => q,
        None => seq!['.'],
    }
}

impl Storage {
    /// A handle on the database at `path`, with the platform key policy and
    /// key creation allowed.
    pub fn from_db_path(path: String) -> (r: Self)
        ensures
            r.path_view() == path@,
            r.policy() == SecretKeyPolicy::PlatformDefault,
            r.creation_allowed(),
    {
        Storage { path, secret_key_policy: SecretKeyPolicy::PlatformDefault, secret_key_creation_allowed: true }
    }

    pub closed spec fn path_view(&self) -> Seq<char> {
        self.path@
    }

    pub closed spec fn policy(&self) -> SecretKeyPolicy {
        self.secret_key_policy
    }

    pub closed spec fn creation_allowed(&self) -> bool {
        self.secret_key_creation_allowed
    }

    /// The key policy in force.
    pub fn secret_key_policy(&self) -> (r: SecretKeyPolicy)
        ensures
            r == self.policy(),
    {
        self.secret_key_policy
    }

    /// Whether a write may provision a missing key.
    pub fn secret_key_creation_allowed(&self) -> (r: bool)
        ensures
            r == self.creation_allowed(),
    {
        self.secret_key_creation_allowed
    }

    /// The database file's path.
    pub fn db_path(&self) -> (r: &str)
        ensures
            r@ == self.path_view(),
    {
        self.path.as_str()
    }

    /// The same handle with another key policy.
    pub fn with_secret_key_policy(self, policy: SecretKeyPolicy) -> (r: Self)
        ensures
            r.policy() == policy,
            r.path_view() == self.path_view(),
            r.creation_allowed() == self.creation_allowed(),
    {
        let mut s = self;
        s.secret_key_policy = policy;
        s
    }

    /// The same handle, allowing or forbidding key creation.
    pub fn with_secret_key_creation(self, allowed: bool) -> (r: Self)
        ensures
            r.creation_allowed() == allowed,
            r.path_view() == self.path_view(),
            r.policy() == self.policy(),
    {
        let mut s = self;
        s.secret_key_creation_allowed = allowed;
        s
    }

    /// The same handle, requiring an externally managed key.
    pub fn require_persistent_key(self) -> (r: Self)
        ensures
            r.policy() == SecretKeyPolicy::ExternalOnly,
            r.path_view() == self.path_view(),
            r.creation_allowed() == self.creation_allowed(),
    {
        self.with_secret_key_policy(SecretKeyPolicy::ExternalOnly)
    }

    /// Same as [`Storage::require_persistent_key`].
    pub fn require_persistent_secret_key(self) -> (r: Self)
        ensures
            r.policy() == SecretKeyPolicy::ExternalOnly,
            r.path_view() == self.path_view(),
            r.creation_allowed() == self.creation_allowed(),
    {
        self.require_persistent_key()
    }

    /// The directory holding the database file: its parent, or `.` where the
    /// path has none.
    pub fn data_dir(&self) -> (r: String)
        ensures
            r@ == data_dir_for(path_parent_of(self.path_view())),
            r@ == seq!['.'] || (has_prefix(self.path_view(), r@) && r@.len() < self.path_view().len()),
    {
        let parent = path_parent(self.path.as_str());
        Self::data_dir_from_parent(parent)
    }

    /// The data directory once the parent of the database path is known.
    pub fn data_dir_from_parent(parent: Option<String>) -> (r: String)
        ensures
            r@ == data_dir_for(match parent {
                Some(q) => Some(q@),
                None => None,
            }),
    {
        match parent {
            Some(q) => q,
            None => {
                let r = String::from_str(".");
                proof {
                    reveal_strlit(".");
                }
                assert(r@ =~= seq!['.']);
                r
            },
        }
    }
}

/// The key errors that a write may recover from by provisioning a key.
pub open spec fn is_missing_key_error(e: Seq<char>) -> bool {
    e == "MISSING_MANAGED_KEY"@ || e == "MISSING_EXTERNAL_KEY"@ || e == "KEY_PROVIDER_UNAVAILABLE"@
}

/// What a write that stores secrets does about the encryption key.
#[derive(Debug, PartialEq, Eq)]
pub enum WriteKeyDecision {
    /// Use the key that opened.
    UseOpened,
    /// Nothing secret is written: proceed without a key.
    Unkeyed,
    /// Refuse the write with this error.
    Fail(String),
    /// Ask whether encrypted secrets are stored, and decide again.
    CheckCiphertext,
    /// Provision a new key.
    CreateKey,
}

impl Storage {
    /// The key decision of a write, from the error of opening the key
    /// (`None` where it opened), whether the write stores a secret, and,
    /// once asked, whether encrypted secrets are already stored. A key is
    /// provisioned only where the key is missing, the write needs one, this
    /// handle allows it, and nothing encrypted under a lost key is stored.
    pub fn write_key_decision(&self, open_error: Option<&str>, needs_key: bool, has_ciphertext: Option<bool>) -> (r:
        WriteKeyDecision)
        ensures
            match open_error {
                None => r is UseOpened,
                Some(e) => if !is_missing_key_error(e@) {
                    r matches WriteKeyDecision::Fail(m) && m@ == e@
                } else if !needs_key {
                    r is Unkeyed
                } else if !self.creation_allowed() {
                    r matches WriteKeyDecision::Fail(m) && m@ == e@
                } else {
                    match has_ciphertext {
                        None => r is CheckCiphertext,
                        Some(true) => r matches WriteKeyDecision::Fail(m) && m@ == "ENCRYPTED_DATA_KEY_MISSING"@,
                        Some(false) => r is CreateKey,
                    }
                },
            },
            r is CreateKey ==> needs_key && self.creation_allowed() && has_ciphertext == Some(false),
    {
        match open_error {
            None => WriteKeyDecision::UseOpened,
            Some(e) => {
                let missing = crate::text::str_eq(e, "MISSING_MANAGED_KEY") || crate::text::str_eq(
                    e,
                    "MISSING_EXTERNAL_KEY",
                ) || crate::text::str_eq(e, "KEY_PROVIDER_UNAVAILABLE");
                if !missing {
                    WriteKeyDecision::Fail(String::from_str(e))
                } else if !needs_key {
                    WriteKeyDecision::Unkeyed
                } else if !self.secret_key_creation_allowed {
                    WriteKeyDecision::Fail(String::from_str(e))
                } else {
                    match has_ciphertext {
                        None => WriteKeyDecision::CheckCiphertext,
                        Some(true) => WriteKeyDecision::Fail(String::from_str("ENCRYPTED_DATA_KEY_MISSING")),
                        Some(false) => WriteKeyDecision::CreateKey,
                    }
                }
            },
        }
    }
}


/// The outcome of importing another data directory's database.
#[derive(Debug, Clone, Copy, PartialEq, Eq)]
pub enum DataDbImportResult {
    Imported,
    SkippedNoSource,
    SkippedInvalidSource,
    SkippedInvalidTarget,
    SkippedSourceEmpty,
    SkippedTargetHasData,
}

/// What inspecting a database file found.
#[derive(Debug, Clone, Copy, PartialEq, Eq)]
pub enum SqliteDbFileState {
    Missing,
    Empty,
    Valid,
    Invalid,
}

/// The state of a database file from what was found about it.
pub open spec fn classified(exists: bool, len: u64, has_sqlite_header: bool) -> SqliteDbFileState {
    if !exists {
        SqliteDbFileState::Missing
    } else if len == 0 {
        SqliteDbFileState::Empty
    } else if has_sqlite_header {
        SqliteDbFileState::Valid
    } else {
        SqliteDbFileState::Invalid
    }
}

/// Classifies a database file: missing, empty, a SQLite database by its
/// header, or something else.
pub fn classify_db_file(exists: bool, len: u64, has_sqlite_header: bool) -> (r: SqliteDbFileState)
    ensures
        r == classified(exists, len, has_sqlite_header),
{
    if !exists {
        SqliteDbFileState::Missing
    } else if len == 0 {
        SqliteDbFileState::Empty
    } else if has_sqlite_header {
        SqliteDbFileState::Valid
    } else {
        SqliteDbFileState::Invalid
    }
}

/// The source verdict.
pub open spec fn source_verdict(
    source_given: bool,
    source_is_file: bool,
    source_state: SqliteDbFileState,
    source_has_user_data: bool,
) -> Option<DataDbImportResult> {
    if !source_given || !source_is_file {
        Some(DataDbImportResult::SkippedNoSource)
    } else if !(source_state is Valid) {
        Some(DataDbImportResult::SkippedInvalidSource)
    } else if !source_has_user_data {
        Some(DataDbImportResult::SkippedSourceEmpty)
    } else {
        None
    }
}

/// What to do about the source database: stop with a result, or go on
/// (`None`) once it is a valid database holding user data.
pub fn source_import_verdict(
    source_given: bool,
    source_is_file: bool,
    source_state: SqliteDbFileState,
    source_has_user_data: bool,
) -> (r: Option<DataDbImportResult>)
    ensures
        r == source_verdict(source_given, source_is_file, source_state, source_has_user_data),
{
    if !source_given || !source_is_file {
        Some(DataDbImportResult::SkippedNoSource)
    } else {
        match source_state {
            SqliteDbFileState::Valid => if !source_has_user_data {
                Some(DataDbImportResult::SkippedSourceEmpty)
            } else {
                None
            },
            _ => Some(DataDbImportResult::SkippedInvalidSource),
        }
    }
}

/// What to do about the target database before importing.
#[derive(Debug, Clone, Copy, PartialEq, Eq)]
pub enum TargetImportAction {
    /// Nothing is there: import.
    Import,
    /// An empty or data-less database is there: remove its files, then import.
    ReplaceThenImport,
    /// Leave the target alone and report this.
    Skip(DataDbImportResult),
}

/// The target action.
pub open spec fn target_action(target_state: SqliteDbFileState, target_has_user_data: bool) -> TargetImportAction {
    match target_state {
        SqliteDbFileState::Missing => TargetImportAction::Import,
        SqliteDbFileState::Empty => TargetImportAction::ReplaceThenImport,
        SqliteDbFileState::Valid => if target_has_user_data {
            TargetImportAction::Skip(DataDbImportResult::SkippedTargetHasData)
        } else {
            TargetImportAction::ReplaceThenImport
        },
        SqliteDbFileState::Invalid => TargetImportAction::Skip(DataDbImportResult::SkippedInvalidTarget),
    }
}

/// Never overwrites a database that holds user data or that is not a
/// database at all. `target_has_user_data` is consulted for a valid target
/// only.
pub fn target_import_action(target_state: SqliteDbFileState, target_has_user_data: bool) -> (r: TargetImportAction)
    ensures
        r == target_action(target_state, target_has_user_data),
{
    match target_state {
        SqliteDbFileState::Missing => TargetImportAction::Import,
        SqliteDbFileState::Empty => TargetImportAction::ReplaceThenImport,
        SqliteDbFileState::Valid => if target_has_user_data {
            TargetImportAction::Skip(DataDbImportResult::SkippedTargetHasData)
        } else {
            TargetImportAction::ReplaceThenImport
        },
        SqliteDbFileState::Invalid => TargetImportAction::Skip(DataDbImportResult::SkippedInvalidTarget),
    }
}

/// The tables whose rows count as user data, in the order they are checked.
pub open spec fn user_data_table_names() -> Seq<Seq<char>> {
    seq![
        "table_favorites"@,
        "connections"@,
        "connection_secrets"@,
        "history"@,
        "ai_config"@,
        "ai_provider_configs"@,
        "ai_conversations"@,
        "ai_runs"@,
        "sidebar_layout"@,
        "app_settings"@,
        "app_state"@,
        "tunnel_profiles"@,
        "mq_token_records"@,
        "saved_sql_folders"@,
        "saved_sql_files"@,
        "ai_configs"@,
        "state_store"@,
        "prompt_templates"@,
    ]
}

/// The tables whose rows count as user data.
pub fn user_data_tables() -> (r: Vec<&'static str>)
    ensures
        r@.map_values(|t: &'static str| t@) == user_data_table_names(),
{
    let mut r: Vec<&'static str> = Vec::new();
    r.push("table_favorites");
    r.push("connections");
    r.push("connection_secrets");
    r.push("history");
    r.push("ai_config");
    r.push("ai_provider_configs");
    r.push("ai_conversations");
    r.push("ai_runs");
    r.push("sidebar_layout");
    r.push("app_settings");
    r.push("app_state");
    r.push("tunnel_profiles");
    r.push("mq_token_records");
    r.push("saved_sql_folders");
    r.push("saved_sql_files");
    r.push("ai_configs");
    r.push("state_store");
    r.push("prompt_templates");
    assert(r@.map_values(|t: &'static str| t@) =~= user_data_table_names());
    r
}

/// The files that can hold a database's contents: the database itself and
/// the rollback journal, WAL and shared-memory files that SQLite names by
/// appending to the database's file name.
pub fn sqlite_file_set(db_path: &str) -> (r: Vec<String>)
    ensures
        r@.len() == 4,
        r@[0]@ == db_path@,
        r@[1]@ == db_path@ + "-journal"@,
        r@[2]@ == db_path@ + "-wal"@,
        r@[3]@ == db_path@ + "-shm"@,
{
    let mut r: Vec<String> = Vec::new();
    r.push(String::from_str(db_path));
    r.push(String::from_str(db_path).concat("-journal"));
    r.push(String::from_str(db_path).concat("-wal"));
    r.push(String::from_str(db_path).concat("-shm"));
    r
}

/// The permission bits a database file may keep: the owner's always, the
/// group's where the data directory is group-writable (shared by several
/// accounts), the world's never.
pub open spec fn db_file_keep_mask(dir_mode: Option<u32>) -> u32 {
    match dir_mode {
        Some(m) => if m & 0o020u32 != 0 {
            0o770u32
        } else {
            0o700u32
        },
        None => 0o700u32,
    }
}

/// The new mode of a database file whose mode is `file_mode`, in a data
/// directory whose mode is `dir_mode` (`None` where it cannot be read);
/// `None` where the file already complies.
pub fn restricted_db_file_mode(dir_mode: Option<u32>, file_mode: u32) -> (r: Option<u32>)
    ensures
        r == (if file_mode & 0o777u32 == file_mode & 0o777u32 & db_file_keep_mask(dir_mode) {
            None
        } else {
            Some(file_mode & 0o777u32 & db_file_keep_mask(dir_mode))
        }),
        r matches Some(m) ==> m & 0o007u32 == 0 && m & 0o700u32 == file_mode & 0o700u32,
        r matches Some(m) ==> m & 0o070u32 == (if db_file_keep_mask(dir_mode) == 0o770u32 {
            file_mode & 0o070u32
        } else {
            0
        }),
{
    let keep: u32 = match dir_mode {
        Some(m) => if m & 0o020u32 != 0 {
            0o770u32
        } else {
            0o700u32
        },
        None => 0o700u32,
    };
    let mode = file_mode & 0o777u32;
    let restricted = mode & keep;
    assert(restricted & 0o007u32 == 0 && restricted & 0o700u32 == file_mode & 0o700u32) by (bit_vector)
        requires
            keep == 0o770u32 || keep == 0o700u32,
            mode == file_mode & 0o777u32,
            restricted == mode & keep,
    ;
    assert(restricted & 0o070u32 == (if keep == 0o770u32 {
        file_mode & 0o070u32
    } else {
        0
    })) by (bit_vector)
        requires
            keep == 0o770u32 || keep == 0o700u32,
            mode == file_mode & 0o777u32,
            restricted == mode & keep,
    ;
    if mode == restricted {
        None
    } else {
        Some(restricted)
    }
}

/// Importing never overwrites user data: a target is skipped as holding
/// data exactly when it is a valid database with user data; it is skipped
/// at all only then or when it is not a database; a missing target is
/// imported into directly; and its files are replaced only when it is empty
/// or a valid database without user data, which is always replaced.
pub proof fn lemma_import_never_overwrites_data(target_state: SqliteDbFileState, target_has_user_data: bool)
    ensures
        (target_action(target_state, target_has_user_data) == TargetImportAction::Skip(
            DataDbImportResult::SkippedTargetHasData,
        )) <==> (target_state == SqliteDbFileState::Valid && target_has_user_data),
        (target_action(target_state, target_has_user_data) is Skip) <==> ((target_state == SqliteDbFileState::Valid
            && target_has_user_data) || target_state == SqliteDbFileState::Invalid),
        target_state == SqliteDbFileState::Invalid ==> target_action(target_state, target_has_user_data)
            == TargetImportAction::Skip(DataDbImportResult::SkippedInvalidTarget),
        (target_action(target_state, target_has_user_data) == TargetImportAction::Import) <==> (target_state
            == SqliteDbFileState::Missing),
        (target_action(target_state, target_has_user_data) == TargetImportAction::ReplaceThenImport) <==> (
        target_state == SqliteDbFileState::Empty || (target_state == SqliteDbFileState::Valid && !target_has_user_data)),
{
}

/// The import goes on past the source exactly when a source database is
/// given, is a file, is a valid database and holds user data; otherwise it
/// stops with the first of: no source, an invalid source, an empty source.
pub proof fn lemma_import_needs_a_source_with_data(
    source_given: bool,
    source_is_file: bool,
    source_state: SqliteDbFileState,
    source_has_user_data: bool,
)
    ensures
        (source_verdict(source_given, source_is_file, source_state, source_has_user_data) is None) <==> (source_given
            && source_is_file && source_state == SqliteDbFileState::Valid && source_has_user_data),
        !(source_given && source_is_file) ==> source_verdict(source_given, source_is_file, source_state, source_has_user_data)
            == Some(DataDbImportResult::SkippedNoSource),
        source_given && source_is_file && source_state != SqliteDbFileState::Valid ==> source_verdict(
            source_given,
            source_is_file,
            source_state,
            source_has_user_data,
        ) == Some(DataDbImportResult::SkippedInvalidSource),
        source_given && source_is_file && source_state == SqliteDbFileState::Valid && !source_has_user_data
            ==> source_verdict(source_given, source_is_file, source_state, source_has_user_data) == Some(
            DataDbImportResult::SkippedSourceEmpty,
        ),
{
}

/// A database file is missing exactly when it does not exist, empty exactly
/// when it exists with no bytes, and valid exactly when it exists, has bytes
/// and starts with the SQLite header.
pub proof fn lemma_db_file_classes(exists: bool, len: u64, has_sqlite_header: bool)
    ensures
        (classified(exists, len, has_sqlite_header) == SqliteDbFileState::Missing) <==> !exists,
        (classified(exists, len, has_sqlite_header) == SqliteDbFileState::Empty) <==> (exists && len == 0),
        (classified(exists, len, has_sqlite_header) == SqliteDbFileState::Valid) <==> (exists && len > 0
            && has_sqlite_header),
        (classified(exists, len, has_sqlite_header) == SqliteDbFileState::Invalid) <==> (exists && len > 0
            && !has_sqlite_header),
{
}

} // verus!
