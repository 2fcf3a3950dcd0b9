//! Application settings: the desktop preferences, the permission lists kept
//! for plugins, and the bounds that keep stored values sane.

use vstd::prelude::*;
use crate::text::{
    canonical_list, canonical_ids, chars_of, is_clean_list, is_trimmed, lemma_canonical_list_unique, lemma_canonical_of_clean,
    lemma_trim_is_trimmed, lemma_trimmed_fixed, lemma_trimmed_set_of_clean, string_of, string_views, trim,
    trim_chars, trimmed_set,
};
use crate::json::{
    JsonNumber, JsonValue, bool_of, is_text_array, json_as_bool, json_as_str, json_as_u64, json_object_get,
    json_object_insert, json_object_remove, json_text_array, object_get, text_items, text_of, u64_of,
};

verus! {

/// Smallest metadata cache budget, in MB.
pub const METADATA_CACHE_MEMORY_MIN_MB: usize = 16;
/// Largest budget that is recommended, in MB.
pub const METADATA_CACHE_MEMORY_RECOMMENDED_MAX_MB: usize = 256;
/// Largest budget accepted at all, in MB.
pub const METADATA_CACHE_MEMORY_HARD_MAX_MB: usize = 512;
/// Budget used when none is configured, in MB.
pub const METADATA_CACHE_MEMORY_DEFAULT_MB: usize = 64;

/// The metadata cache budget used when none is configured.
pub fn default_metadata_cache_max_memory_mb() -> (r: usize)
    ensures
        r == METADATA_CACHE_MEMORY_DEFAULT_MB,
{
    METADATA_CACHE_MEMORY_DEFAULT_MB
}

/// The budget a configured value stands for: above the hard maximum the
/// default, otherwise the value raised to the minimum.
pub open spec fn metadata_cache_budget(value: usize) -> usize {
    if value > METADATA_CACHE_MEMORY_HARD_MAX_MB {
        METADATA_CACHE_MEMORY_DEFAULT_MB
    } else if value < METADATA_CACHE_MEMORY_MIN_MB {
        METADATA_CACHE_MEMORY_MIN_MB
    } else {
        value
    }
}

/// Bounds a configured metadata cache budget. A value past the hard maximum
/// is taken for a mistake and replaced by the default, not by the maximum.
pub fn normalize_metadata_cache_max_memory_mb(value: usize) -> (r: usize)
    ensures
        r == metadata_cache_budget(value),
        METADATA_CACHE_MEMORY_MIN_MB <= r <= METADATA_CACHE_MEMORY_HARD_MAX_MB,
{
    if value > METADATA_CACHE_MEMORY_HARD_MAX_MB {
        METADATA_CACHE_MEMORY_DEFAULT_MB
    } else if value < METADATA_CACHE_MEMORY_MIN_MB {
        METADATA_CACHE_MEMORY_MIN_MB
    } else {
        value
    }
}

/// Normalizing a budget twice changes nothing.
pub proof fn lemma_metadata_cache_budget_idempotent(value: usize)
    ensures
        metadata_cache_budget(metadata_cache_budget(value)) == metadata_cache_budget(value),
{
}

/// Rows per page in the sidebar's table list when none is configured.
pub fn default_sidebar_table_page_size() -> (r: usize)
    ensures
        r == 1000,
{
    1000
}

/// The tray icon style.
#[derive(Debug, Clone, Copy, PartialEq, Eq)]
pub enum DesktopIconTheme {
    Default,
    Black,
}

/// The stored name of a theme.
pub open spec fn theme_name(t: DesktopIconTheme) -> Seq<char> {
    match t {
        DesktopIconTheme::Default => "default"@,
        DesktopIconTheme::Black => "black"@,
    }
}

/// The theme a stored value selects: `"black"`, or the default for anything
/// else.
pub open spec fn theme_from(v: Option<JsonValue>) -> DesktopIconTheme {
    if text_of(v) == Some("black"@) {
        DesktopIconTheme::Black
    } else {
        DesktopIconTheme::Default
    }
}

impl DesktopIconTheme {
    /// The theme a stored value selects.
    pub fn from_settings_value(value: Option<&JsonValue>) -> (r: Self)
        ensures
            r == theme_from(match value {
                Some(x) => Some(*x),
                None => None,
            }),
    {
        match json_as_str(value) {
            Some(s) => if crate::text::str_eq(s, "black") {
                DesktopIconTheme::Black
            } else {
                DesktopIconTheme::Default
            },
            None => DesktopIconTheme::Default,
        }
    }

    /// The name the theme is stored under.
    pub fn settings_name(&self) -> (r: &'static str)
        ensures
            r@ == theme_name(*self),
    {
        match self {
            DesktopIconTheme::Default => "default",
            DesktopIconTheme::Black => "black",
        }
    }
}

/// The strings among array items, in order.
pub open spec fn texts_in(items: Seq<JsonValue>) -> Seq<Seq<char>>
    decreases items.len(),
{
    if items.len() == 0 {
        Seq::empty()
    } else {
        texts_in(items.drop_last()) + match items.last() {
            JsonValue::Text(t) => seq![t@],
            _ => Seq::empty(),
        }
    }
}

/// The string list a setting holds: its string items trimmed, blanks
/// dropped, sorted and deduplicated; empty for anything but an array.
pub open spec fn string_list_setting(v: Option<JsonValue>) -> Seq<Seq<char>> {
    match v {
        Some(JsonValue::Array(items)) => canonical_list(trimmed_set(texts_in(items@))),
        _ => canonical_list(trimmed_set(Seq::empty())),
    }
}

fn texts_of_items(items: &[JsonValue]) -> (r: Vec<String>)
    ensures
        string_views(r@) == texts_in(items@),
{
    let mut out: Vec<String> = Vec::new();
    let mut i: usize = 0;
    assert(items@.take(0) =~= Seq::<JsonValue>::empty());
    assert(string_views(out@) =~= Seq::<Seq<char>>::empty());
    while i < items.len()
        invariant
            i <= items.len(),
            string_views(out@) == texts_in(items@.take(i as int)),
        decreases items.len() - i,
    {
        assert(items@.take(i + 1).drop_last() =~= items@.take(i as int));
        let ghost prev = string_views(out@);
        match &items[i] {
            JsonValue::Text(t) => {
                out.push(t.clone());
                assert(string_views(out@) =~= prev + seq![t@]);
            },
            _ => {
                assert(string_views(out@) =~= prev + Seq::<Seq<char>>::empty());
            },
        }
        i = i + 1;
    }
    assert(items@.take(items.len() as int) =~= items@);
    out
}

/// Reads a string list setting, dropping blanks and duplicates so that a
/// hand-edited or partly written value can never widen a permission list.
pub fn normalized_string_list(value: Option<&JsonValue>) -> (r: Vec<String>)
    ensures
        string_views(r@) == string_list_setting(match value {
            Some(x) => Some(*x),
            None => None,
        }),
        is_clean_list(string_views(r@)),
{
    let texts = match value {
        Some(JsonValue::Array(items)) => texts_of_items(items.as_slice()),
        _ => {
            let v: Vec<String> = Vec::new();
            assert(string_views(v@) =~= Seq::<Seq<char>>::empty());
            v
        },
    };
    let r = canonical_ids(texts.as_slice());
    proof {
        lemma_canonical_list_unique(string_views(r@), trimmed_set(string_views(texts@)));
    }
    r
}

/// An identifier setting: trimmed, and between 1 and 256 characters.
pub open spec fn setting_id_ok(value: Seq<char>) -> bool {
    trim(value).len() > 0 && trim(value).len() <= 256
}

/// Validates an identifier read from a request: trimmed, non-empty and at
/// most 256 characters.
pub fn normalized_setting_id(value: &str, label: &str) -> (r: Result<String, String>)
    ensures
        match r {
            Ok(id) => setting_id_ok(value@) && id@ == trim(value@),
            Err(e) => !setting_id_ok(value@) && e@ == "A valid "@ + label@ + " is required"@,
        },
{
    let chars = chars_of(value);
    let t = trim_chars(chars.as_slice());
    if t.len() == 0 || t.len() > 256 {
        return Err(String::from_str("A valid ").concat(label).concat(" is required"));
    }
    Ok(string_of(t.as_slice()))
}

/// The desktop application's preferences.
#[derive(Debug, Clone, PartialEq, Eq)]
pub struct DesktopSettings {
    pub show_tray_icon: bool,
    pub icon_theme: DesktopIconTheme,
    pub quit_on_close: bool,
    pub close_action_prompted: bool,
    pub debug_logging_enabled: bool,
    pub metadata_cache_max_memory_mb: usize,
    pub duckdb_worker_process_isolation: bool,
    pub duckdb_worker_max_processes: usize,
    pub saved_sql_sync_dir: Option<String>,
    pub driver_store_dir: Option<String>,
    pub plugin_store_dir: Option<String>,
    pub agent_store_dir: Option<String>,
    pub custom_ai_skill_root_enabled: bool,
    pub custom_ai_skill_root: Option<String>,
    pub sidebar_table_page_size: usize,
}

impl DesktopSettings {
    /// The preferences of a fresh install; the DuckDB worker limit is the
    /// driver runtime's default, which the caller supplies.
    pub fn defaults(duckdb_worker_max_processes: usize) -> (r: Self)
        ensures
            r.show_tray_icon,
            r.icon_theme is Default,
            !r.quit_on_close,
            !r.close_action_prompted,
            !r.debug_logging_enabled,
            r.metadata_cache_max_memory_mb == METADATA_CACHE_MEMORY_DEFAULT_MB,
            !r.duckdb_worker_process_isolation,
            r.duckdb_worker_max_processes == duckdb_worker_max_processes,
            r.saved_sql_sync_dir is None,
            r.driver_store_dir is None,
            r.plugin_store_dir is None,
            r.agent_store_dir is None,
            !r.custom_ai_skill_root_enabled,
            r.custom_ai_skill_root is None,
            r.sidebar_table_page_size == 1000,
    {
        DesktopSettings {
            show_tray_icon: true,
            icon_theme: DesktopIconTheme::Default,
            quit_on_close: false,
            close_action_prompted: false,
            debug_logging_enabled: false,
            metadata_cache_max_memory_mb: default_metadata_cache_max_memory_mb(),
            duckdb_worker_process_isolation: false,
            duckdb_worker_max_processes,
            saved_sql_sync_dir: None,
            driver_store_dir: None,
            plugin_store_dir: None,
            agent_store_dir: None,
            custom_ai_skill_root_enabled: false,
            custom_ai_skill_root: None,
            sidebar_table_page_size: default_sidebar_table_page_size(),
        }
    }
}

/// A stored size: a non-negative integer that fits in `usize`.
pub open spec fn usize_of(v: Option<JsonValue>) -> Option<usize> {
    match u64_of(v) {
        Some(n) => if n <= usize::MAX {
            Some(n as usize)
        } else {
            None
        },
        None => None,
    }
}

/// A stored size, if the setting holds one that fits in `usize`.
pub fn stored_usize(settings: &[(String, JsonValue)], key: &str) -> (r: Option<usize>)
    ensures
        r == usize_of(object_get(settings@, key@)),
{
    match json_as_u64(json_object_get(settings, key)) {
        Some(n) => if n <= usize::MAX as u64 {
            Some(n as usize)
        } else {
            None
        },
        None => None,
    }
}

/// A stored flag, or `default`.
pub open spec fn flag_or(v: Option<JsonValue>, default: bool) -> bool {
    match bool_of(v) {
        Some(b) => b,
        None => default,
    }
}

/// A stored directory: its string trimmed, if anything is left.
pub open spec fn dir_setting(v: Option<JsonValue>) -> Option<Seq<char>> {
    match text_of(v) {
        Some(t) => if trim(t).len() > 0 {
            Some(trim(t))
        } else {
            None
        },
        None => None,
    }
}

/// The view of an optional string.
pub open spec fn opt_chars(o: Option<String>) -> Option<Seq<char>> {
    match o {
        Some(s) => Some(s@),
        None => None,
    }
}

/// `d` holds the preferences that the settings `e` store. `duckdb` is the
/// stored DuckDB worker limit after the driver runtime normalized it, if one
/// is stored; `duckdb_default` the runtime's default.
pub open spec fn is_desktop_settings_of(
    d: DesktopSettings,
    e: Seq<(String, JsonValue)>,
    duckdb: Option<usize>,
    duckdb_default: usize,
) -> bool {
    &&& d.show_tray_icon == match bool_of(object_get(e, "show_tray_icon"@)) {
        Some(b) => b,
        None => flag_or(object_get(e, "run_in_background"@), true),
    }
    &&& d.icon_theme == theme_from(object_get(e, "icon_theme"@))
    &&& d.quit_on_close == flag_or(object_get(e, "quit_on_close"@), false)
    &&& d.close_action_prompted == flag_or(object_get(e, "close_action_prompted"@), false)
    &&& d.debug_logging_enabled == flag_or(object_get(e, "debug_logging_enabled"@), false)
    &&& d.metadata_cache_max_memory_mb == match usize_of(object_get(e, "metadata_cache_max_memory_mb"@)) {
        Some(v) => metadata_cache_budget(v),
        None => METADATA_CACHE_MEMORY_DEFAULT_MB,
    }
    &&& d.duckdb_worker_process_isolation == flag_or(object_get(e, "duckdb_worker_process_isolation"@), false)
    &&& d.duckdb_worker_max_processes == match duckdb {
        Some(v) => v,
        None => duckdb_default,
    }
    &&& opt_chars(d.saved_sql_sync_dir) == dir_setting(object_get(e, "saved_sql_sync_dir"@))
    &&& opt_chars(d.driver_store_dir) == dir_setting(object_get(e, "driver_store_dir"@))
    &&& opt_chars(d.plugin_store_dir) == dir_setting(object_get(e, "plugin_store_dir"@))
    &&& opt_chars(d.agent_store_dir) == dir_setting(object_get(e, "agent_store_dir"@))
    &&& d.custom_ai_skill_root_enabled == flag_or(object_get(e, "custom_ai_skill_root_enabled"@), false)
    &&& opt_chars(d.custom_ai_skill_root) == dir_setting(object_get(e, "custom_ai_skill_root"@))
    &&& d.sidebar_table_page_size == match u64_of(object_get(e, "sidebar_table_page_size"@)) {
        Some(n) => n as usize,
        None => 1000,
    }
}

fn flag_setting(settings: &[(String, JsonValue)], key: &str, default: bool) -> (r: bool)
    ensures
        r == flag_or(object_get(settings@, key@), default),
{
    match json_as_bool(json_object_get(settings, key)) {
        Some(b) => b,
        None => default,
    }
}

fn dir_setting_exec(settings: &[(String, JsonValue)], key: &str) -> (r: Option<String>)
    ensures
        opt_chars(r) == dir_setting(object_get(settings@, key@)),
{
    match json_as_str(json_object_get(settings, key)) {
        Some(s) => {
            let c = chars_of(s);
            let t = trim_chars(c.as_slice());
            if t.len() > 0 {
                Some(string_of(t.as_slice()))
            } else {
                None
            }
        },
        None => None,
    }
}

/// The desktop preferences stored in the settings object `settings`.
/// `duckdb_worker_max_processes` is the stored DuckDB worker limit as the
/// driver runtime normalized it, if one is stored.
pub fn load_desktop_settings_from(
    settings: &[(String, JsonValue)],
    duckdb_worker_max_processes: Option<usize>,
    duckdb_worker_max_processes_default: usize,
) -> (r: DesktopSettings)
    ensures
        is_desktop_settings_of(r, settings@, duckdb_worker_max_processes, duckdb_worker_max_processes_default),
{
    let show_tray_icon = match json_as_bool(json_object_get(settings, "show_tray_icon")) {
        Some(b) => b,
        None => flag_setting(settings, "run_in_background", true),
    };
    let metadata_cache_max_memory_mb = match stored_usize(settings, "metadata_cache_max_memory_mb") {
        Some(v) => normalize_metadata_cache_max_memory_mb(v),
        None => default_metadata_cache_max_memory_mb(),
    };
    let duckdb = match duckdb_worker_max_processes {
        Some(v) => v,
        None => duckdb_worker_max_processes_default,
    };
    let page = match json_as_u64(json_object_get(settings, "sidebar_table_page_size")) {
        Some(n) => n as usize,
        None => default_sidebar_table_page_size(),
    };
    DesktopSettings {
        show_tray_icon,
        icon_theme: DesktopIconTheme::from_settings_value(json_object_get(settings, "icon_theme")),
        quit_on_close: flag_setting(settings, "quit_on_close", false),
        close_action_prompted: flag_setting(settings, "close_action_prompted", false),
        debug_logging_enabled: flag_setting(settings, "debug_logging_enabled", false),
        metadata_cache_max_memory_mb,
        duckdb_worker_process_isolation: flag_setting(settings, "duckdb_worker_process_isolation", false),
        duckdb_worker_max_processes: duckdb,
        saved_sql_sync_dir: dir_setting_exec(settings, "saved_sql_sync_dir"),
        driver_store_dir: dir_setting_exec(settings, "driver_store_dir"),
        plugin_store_dir: dir_setting_exec(settings, "plugin_store_dir"),
        agent_store_dir: dir_setting_exec(settings, "agent_store_dir"),
        custom_ai_skill_root_enabled: flag_setting(settings, "custom_ai_skill_root_enabled", false),
        custom_ai_skill_root: dir_setting_exec(settings, "custom_ai_skill_root"),
        sidebar_table_page_size: page,
    }
}

/// A JSON number for a size.
pub open spec fn size_value(n: usize) -> JsonValue {
    JsonValue::Number(JsonNumber::PosInt(n as u64))
}

/// The stored value of a directory preference: the path as given when it is
/// not blank; otherwise the entry is removed.
pub open spec fn dir_value(o: Option<String>) -> Option<JsonValue> {
    match o {
        Some(p) => if trim(p@).len() > 0 {
            Some(JsonValue::Text(p))
        } else {
            None
        },
        None => None,
    }
}

/// The value of `k` after saving `d` over the settings `old`, for every key
/// but `icon_theme` (which holds the theme's name); `duckdb` is the DuckDB
/// worker limit as the driver runtime normalized it. The legacy
/// `run_in_background` key is dropped.
pub open spec fn saved_desktop_value(
    d: DesktopSettings,
    duckdb: usize,
    old: Seq<(String, JsonValue)>,
    k: Seq<char>,
) -> Option<JsonValue> {
    if k == "sidebar_table_page_size"@ {
        Some(size_value(d.sidebar_table_page_size))
    } else if k == "custom_ai_skill_root"@ {
        dir_value(d.custom_ai_skill_root)
    } else if k == "custom_ai_skill_root_enabled"@ {
        Some(JsonValue::Bool(d.custom_ai_skill_root_enabled))
    } else if k == "agent_store_dir"@ {
        dir_value(d.agent_store_dir)
    } else if k == "plugin_store_dir"@ {
        dir_value(d.plugin_store_dir)
    } else if k == "driver_store_dir"@ {
        dir_value(d.driver_store_dir)
    } else if k == "saved_sql_sync_dir"@ {
        dir_value(d.saved_sql_sync_dir)
    } else if k == "duckdb_worker_max_processes"@ {
        Some(size_value(duckdb))
    } else if k == "duckdb_worker_process_isolation"@ {
        Some(JsonValue::Bool(d.duckdb_worker_process_isolation))
    } else if k == "metadata_cache_max_memory_mb"@ {
        Some(size_value(metadata_cache_budget(d.metadata_cache_max_memory_mb)))
    } else if k == "debug_logging_enabled"@ {
        Some(JsonValue::Bool(d.debug_logging_enabled))
    } else if k == "close_action_prompted"@ {
        Some(JsonValue::Bool(d.close_action_prompted))
    } else if k == "quit_on_close"@ {
        Some(JsonValue::Bool(d.quit_on_close))
    } else if k == "show_tray_icon"@ {
        Some(JsonValue::Bool(d.show_tray_icon))
    } else if k == "run_in_background"@ {
        None
    } else {
        object_get(old, k)
    }
}

fn set_dir(settings: &mut Vec<(String, JsonValue)>, key: &str, o: &Option<String>)
    ensures
        forall|k: Seq<char>| #[trigger] object_get(final(settings)@, k) == if k == key@ {
            dir_value(*o)
        } else {
            object_get(old(settings)@, k)
        },
{
    match o {
        Some(p) => {
            let c = chars_of(p.as_str());
            let t = trim_chars(c.as_slice());
            if t.len() > 0 {
                json_object_insert(settings, key, JsonValue::Text(p.clone()));
            } else {
                let _ = json_object_remove(settings, key);
            }
        },
        None => {
            let _ = json_object_remove(settings, key);
        },
    }
}

/// Writes the desktop preferences into the settings object. Directory
/// preferences that are blank are removed rather than stored;
/// `duckdb_worker_max_processes` is the limit as the driver runtime
/// normalized it.
pub fn apply_desktop_settings(
    settings: &mut Vec<(String, JsonValue)>,
    desktop: &DesktopSettings,
    duckdb_worker_max_processes: usize,
)
    ensures
        forall|k: Seq<char>| k != "icon_theme"@ ==> #[trigger] object_get(final(settings)@, k) == saved_desktop_value(
            *desktop,
            duckdb_worker_max_processes,
            old(settings)@,
            k,
        ),
        object_get(final(settings)@, "icon_theme"@) matches Some(JsonValue::Text(t)) && t@ == theme_name(desktop.icon_theme),
{
    let ghost s0 = settings@;
    let _ = json_object_remove(settings, "run_in_background");
    let ghost s1 = settings@;
    json_object_insert(settings, "show_tray_icon", JsonValue::Bool(desktop.show_tray_icon));
    let ghost s2 = settings@;
    json_object_insert(settings, "icon_theme", JsonValue::Text(String::from_str(desktop.icon_theme.settings_name())));
    let ghost s3 = settings@;
    json_object_insert(settings, "quit_on_close", JsonValue::Bool(desktop.quit_on_close));
    let ghost s4 = settings@;
    json_object_insert(settings, "close_action_prompted", JsonValue::Bool(desktop.close_action_prompted));
    let ghost s5 = settings@;
    json_object_insert(settings, "debug_logging_enabled", JsonValue::Bool(desktop.debug_logging_enabled));
    let ghost s6 = settings@;
    let budget = normalize_metadata_cache_max_memory_mb(desktop.metadata_cache_max_memory_mb);
    json_object_insert(settings, "metadata_cache_max_memory_mb", JsonValue::Number(JsonNumber::PosInt(budget as u64)));
    let ghost s7 = settings@;
    json_object_insert(
        settings,
        "duckdb_worker_process_isolation",
        JsonValue::Bool(desktop.duckdb_worker_process_isolation),
    );
    let ghost s8 = settings@;
    json_object_insert(
        settings,
        "duckdb_worker_max_processes",
        JsonValue::Number(JsonNumber::PosInt(duckdb_worker_max_processes as u64)),
    );
    let ghost s9 = settings@;
    set_dir(settings, "saved_sql_sync_dir", &desktop.saved_sql_sync_dir);
    let ghost s10 = settings@;
    set_dir(settings, "driver_store_dir", &desktop.driver_store_dir);
    let ghost s11 = settings@;
    set_dir(settings, "plugin_store_dir", &desktop.plugin_store_dir);
    let ghost s12 = settings@;
    set_dir(settings, "agent_store_dir", &desktop.agent_store_dir);
    let ghost s13 = settings@;
    json_object_insert(settings, "custom_ai_skill_root_enabled", JsonValue::Bool(desktop.custom_ai_skill_root_enabled));
    let ghost s14 = settings@;
    set_dir(settings, "custom_ai_skill_root", &desktop.custom_ai_skill_root);
    let ghost s15 = settings@;
    json_object_insert(
        settings,
        "sidebar_table_page_size",
        JsonValue::Number(JsonNumber::PosInt(desktop.sidebar_table_page_size as u64)),
    );
    proof {
        assert forall|k: Seq<char>| k != "icon_theme"@ implies #[trigger] object_get(settings@, k) == saved_desktop_value(
            *desktop,
            duckdb_worker_max_processes,
            s0,
            k,
        ) by {
            assert(object_get(s15, k) == object_get(s15, k));
            assert(object_get(s14, k) == object_get(s14, k));
            assert(object_get(s13, k) == object_get(s13, k));
            assert(object_get(s12, k) == object_get(s12, k));
            assert(object_get(s11, k) == object_get(s11, k));
            assert(object_get(s10, k) == object_get(s10, k));
            assert(object_get(s9, k) == object_get(s9, k));
            assert(object_get(s8, k) == object_get(s8, k));
            assert(object_get(s7, k) == object_get(s7, k));
            assert(object_get(s6, k) == object_get(s6, k));
            assert(object_get(s5, k) == object_get(s5, k));
            assert(object_get(s4, k) == object_get(s4, k));
            assert(object_get(s3, k) == object_get(s3, k));
            assert(object_get(s2, k) == object_get(s2, k));
            assert(object_get(s1, k) == object_get(s1, k));
        }
        reveal_strlit("icon_theme");
        reveal_strlit("sidebar_table_page_size");
        reveal_strlit("custom_ai_skill_root");
        reveal_strlit("custom_ai_skill_root_enabled");
        reveal_strlit("agent_store_dir");
        reveal_strlit("plugin_store_dir");
        reveal_strlit("driver_store_dir");
        reveal_strlit("saved_sql_sync_dir");
        reveal_strlit("duckdb_worker_max_processes");
        reveal_strlit("duckdb_worker_process_isolation");
        reveal_strlit("metadata_cache_max_memory_mb");
        reveal_strlit("debug_logging_enabled");
        reveal_strlit("close_action_prompted");
        reveal_strlit("quit_on_close");
        assert("icon_theme"@.len() == 10);
        assert("sidebar_table_page_size"@.len() == 23);
        assert("custom_ai_skill_root"@.len() == 20);
        assert("custom_ai_skill_root_enabled"@.len() == 28);
        assert("agent_store_dir"@.len() == 15);
        assert("plugin_store_dir"@.len() == 16);
        assert("driver_store_dir"@.len() == 16);
        assert("saved_sql_sync_dir"@.len() == 18);
        assert("duckdb_worker_max_processes"@.len() == 27);
        assert("duckdb_worker_process_isolation"@.len() == 31);
        assert("metadata_cache_max_memory_mb"@.len() == 28);
        assert("debug_logging_enabled"@.len() == 21);
        assert("close_action_prompted"@.len() == 21);
        assert("quit_on_close"@.len() == 13);
        assert(object_get(s3, "icon_theme"@) == object_get(s3, "icon_theme"@));
        assert(object_get(s4, "icon_theme"@) == object_get(s3, "icon_theme"@));
        assert(object_get(s5, "icon_theme"@) == object_get(s4, "icon_theme"@));
        assert(object_get(s6, "icon_theme"@) == object_get(s5, "icon_theme"@));
        assert(object_get(s7, "icon_theme"@) == object_get(s6, "icon_theme"@));
        assert(object_get(s8, "icon_theme"@) == object_get(s7, "icon_theme"@));
        assert(object_get(s9, "icon_theme"@) == object_get(s8, "icon_theme"@));
        assert(object_get(s10, "icon_theme"@) == object_get(s9, "icon_theme"@));
        assert(object_get(s11, "icon_theme"@) == object_get(s10, "icon_theme"@));
        assert(object_get(s12, "icon_theme"@) == object_get(s11, "icon_theme"@));
        assert(object_get(s13, "icon_theme"@) == object_get(s12, "icon_theme"@));
        assert(object_get(s14, "icon_theme"@) == object_get(s13, "icon_theme"@));
        assert(object_get(s15, "icon_theme"@) == object_get(s14, "icon_theme"@));
        assert(object_get(settings@, "icon_theme"@) == object_get(s15, "icon_theme"@));
    }
}

/// A directory preference as it reads back after saving: trimmed, and
/// absent when blank.
pub open spec fn dir_read_back(o: Option<String>) -> Option<Seq<char>> {
    match o {
        Some(p) => if trim(p@).len() > 0 {
            Some(trim(p@))
        } else {
            None
        },
        None => None,
    }
}

/// The desktop settings' keys are pairwise distinct: their lengths, and
/// the three pairs of equal length, tell them apart. Callers use it to read
/// one key's value after writes to the others.
pub proof fn lemma_desktop_keys_distinct()
    ensures
        "show_tray_icon"@.len() == 14,
        "run_in_background"@.len() == 17,
        "icon_theme"@.len() == 10,
        "quit_on_close"@.len() == 13,
        "close_action_prompted"@.len() == 21,
        "debug_logging_enabled"@.len() == 21,
        "metadata_cache_max_memory_mb"@.len() == 28,
        "duckdb_worker_process_isolation"@.len() == 31,
        "duckdb_worker_max_processes"@.len() == 27,
        "saved_sql_sync_dir"@.len() == 18,
        "driver_store_dir"@.len() == 16,
        "plugin_store_dir"@.len() == 16,
        "agent_store_dir"@.len() == 15,
        "custom_ai_skill_root_enabled"@.len() == 28,
        "custom_ai_skill_root"@.len() == 20,
        "sidebar_table_page_size"@.len() == 23,
        "close_action_prompted"@ != "debug_logging_enabled"@,
        "driver_store_dir"@ != "plugin_store_dir"@,
        "custom_ai_skill_root_enabled"@ != "metadata_cache_max_memory_mb"@,
{
    reveal_strlit("show_tray_icon");
    reveal_strlit("run_in_background");
    reveal_strlit("icon_theme");
    reveal_strlit("quit_on_close");
    reveal_strlit("close_action_prompted");
    reveal_strlit("debug_logging_enabled");
    reveal_strlit("metadata_cache_max_memory_mb");
    reveal_strlit("duckdb_worker_process_isolation");
    reveal_strlit("duckdb_worker_max_processes");
    reveal_strlit("saved_sql_sync_dir");
    reveal_strlit("driver_store_dir");
    reveal_strlit("plugin_store_dir");
    reveal_strlit("agent_store_dir");
    reveal_strlit("custom_ai_skill_root_enabled");
    reveal_strlit("custom_ai_skill_root");
    reveal_strlit("sidebar_table_page_size");
    assert("close_action_prompted"@[0] != "debug_logging_enabled"@[0]);
    assert("driver_store_dir"@[0] != "plugin_store_dir"@[0]);
    assert("custom_ai_skill_root_enabled"@[0] != "metadata_cache_max_memory_mb"@[0]);
}

/// Saving desktop preferences and loading them again gives them back, with
/// the cache budget bounded, the DuckDB worker limit as the driver runtime
/// normalized it, and directory preferences trimmed (blank ones absent).
pub proof fn lemma_desktop_settings_round_trip(
    d: DesktopSettings,
    duckdb: usize,
    duckdb_default: usize,
    old: Seq<(String, JsonValue)>,
    saved: Seq<(String, JsonValue)>,
    loaded: DesktopSettings,
)
    requires
        forall|k: Seq<char>| k != "icon_theme"@ ==> #[trigger] object_get(saved, k) == saved_desktop_value(d, duckdb, old, k),
        object_get(saved, "icon_theme"@) matches Some(JsonValue::Text(t)) && t@ == theme_name(d.icon_theme),
        is_desktop_settings_of(loaded, saved, Some(duckdb), duckdb_default),
    ensures
        loaded.show_tray_icon == d.show_tray_icon,
        loaded.icon_theme == d.icon_theme,
        loaded.quit_on_close == d.quit_on_close,
        loaded.close_action_prompted == d.close_action_prompted,
        loaded.debug_logging_enabled == d.debug_logging_enabled,
        loaded.metadata_cache_max_memory_mb == metadata_cache_budget(d.metadata_cache_max_memory_mb),
        loaded.duckdb_worker_process_isolation == d.duckdb_worker_process_isolation,
        loaded.duckdb_worker_max_processes == duckdb,
        opt_chars(loaded.saved_sql_sync_dir) == dir_read_back(d.saved_sql_sync_dir),
        opt_chars(loaded.driver_store_dir) == dir_read_back(d.driver_store_dir),
        opt_chars(loaded.plugin_store_dir) == dir_read_back(d.plugin_store_dir),
        opt_chars(loaded.agent_store_dir) == dir_read_back(d.agent_store_dir),
        loaded.custom_ai_skill_root_enabled == d.custom_ai_skill_root_enabled,
        opt_chars(loaded.custom_ai_skill_root) == dir_read_back(d.custom_ai_skill_root),
        loaded.sidebar_table_page_size == d.sidebar_table_page_size,
{
    lemma_desktop_keys_distinct();
    reveal_strlit("black");
    reveal_strlit("default");
    assert(object_get(saved, "show_tray_icon"@) == saved_desktop_value(d, duckdb, old, "show_tray_icon"@));
    assert(object_get(saved, "quit_on_close"@) == saved_desktop_value(d, duckdb, old, "quit_on_close"@));
    assert(object_get(saved, "close_action_prompted"@) == saved_desktop_value(d, duckdb, old, "close_action_prompted"@));
    assert(object_get(saved, "debug_logging_enabled"@) == saved_desktop_value(d, duckdb, old, "debug_logging_enabled"@));
    assert(object_get(saved, "metadata_cache_max_memory_mb"@) == saved_desktop_value(
        d,
        duckdb,
        old,
        "metadata_cache_max_memory_mb"@,
    ));
    assert(object_get(saved, "duckdb_worker_process_isolation"@) == saved_desktop_value(
        d,
        duckdb,
        old,
        "duckdb_worker_process_isolation"@,
    ));
    assert(object_get(saved, "saved_sql_sync_dir"@) == saved_desktop_value(d, duckdb, old, "saved_sql_sync_dir"@));
    assert(object_get(saved, "driver_store_dir"@) == saved_desktop_value(d, duckdb, old, "driver_store_dir"@));
    assert(object_get(saved, "plugin_store_dir"@) == saved_desktop_value(d, duckdb, old, "plugin_store_dir"@));
    assert(object_get(saved, "agent_store_dir"@) == saved_desktop_value(d, duckdb, old, "agent_store_dir"@));
    assert(object_get(saved, "custom_ai_skill_root_enabled"@) == saved_desktop_value(
        d,
        duckdb,
        old,
        "custom_ai_skill_root_enabled"@,
    ));
    assert(object_get(saved, "custom_ai_skill_root"@) == saved_desktop_value(d, duckdb, old, "custom_ai_skill_root"@));
    assert(object_get(saved, "sidebar_table_page_size"@) == saved_desktop_value(
        d,
        duckdb,
        old,
        "sidebar_table_page_size"@,
    ));
    assert("black"@ != "default"@) by {
        assert("black"@.len() != "default"@.len());
    }
}

/// Plugins whose tools the built-in AI agent may call.
pub const AI_PLUGIN_TOOL_PLUGINS_KEY: &'static str = "ai_plugin_tool_plugins";
/// Per plugin, the connections it may read.
pub const PLUGIN_DATA_GRANTS_KEY: &'static str = "plugin_data_grants";
/// Most data grants one plugin may hold; consent is per connection, so a
/// legitimate plugin never comes near it.
pub const MAX_PLUGIN_DATA_GRANTS_PER_PLUGIN: usize = 512;

/// A clean list without `id`.
pub open spec fn list_without(l: Seq<Seq<char>>, id: Seq<char>) -> Seq<Seq<char>> {
    l.filter(|x: Seq<char>| x != id)
}

proof fn lemma_filter_contains(s: Seq<Seq<char>>, pred: spec_fn(Seq<char>) -> bool, m: int)
    requires
        0 <= m < s.len(),
        pred(s[m]),
    ensures
        s.filter(pred).contains(s[m]),
    decreases s.len(),
{
    reveal(Seq::filter);
    if m < s.len() - 1 {
        lemma_filter_contains(s.drop_last(), pred, m);
        let f = s.drop_last().filter(pred);
        let k = choose|k: int| 0 <= k < f.len() && f[k] == s[m];
        if pred(s.last()) {
            assert(s.filter(pred)[k] == s[m]);
        } else {
            assert(s.filter(pred) == f);
        }
    } else {
        assert(s.filter(pred) == s.drop_last().filter(pred).push(s.last()));
        assert(s.filter(pred)[s.filter(pred).len() - 1] == s[m]);
    }
}

/// A clean list holds each entry once.
proof fn lemma_clean_len(l: Seq<Seq<char>>)
    requires
        is_clean_list(l),
    ensures
        l.len() == l.to_set().len(),
{
    crate::text::lemma_strictly_sorted_no_duplicates(l);
    l.unique_seq_to_set();
}

/// A clean list with `id` added in order.
pub open spec fn list_with(l: Seq<Seq<char>>, id: Seq<char>) -> Seq<Seq<char>> {
    canonical_list(l.to_set().insert(id))
}

/// `list` without `id`; `list` must be clean.
fn remove_from_list(list: &Vec<String>, id: &String) -> (r: Vec<String>)
    requires
        is_clean_list(string_views(list@)),
    ensures
        string_views(r@) == list_without(string_views(list@), id@),
        is_clean_list(string_views(r@)),
        string_views(r@).to_set() == string_views(list@).to_set().remove(id@),
{
    let ghost lv = string_views(list@);
    let ghost pred = |x: Seq<char>| x != id@;
    let mut next: Vec<String> = Vec::new();
    let mut i: usize = 0;
    assert(lv.take(0).filter(pred) =~= Seq::<Seq<char>>::empty());
    while i < list.len()
        invariant
            i <= list.len(),
            lv == string_views(list@),
            pred == (|x: Seq<char>| x != id@),
            string_views(next@) == lv.take(i as int).filter(pred),
        decreases list.len() - i,
    {
        assert(lv.take(i + 1) =~= lv.take(i as int).push(lv[i as int]));
        proof {
            lv.take(i as int).lemma_filter_push(lv[i as int], pred);
        }
        let ghost prev = string_views(next@);
        if list[i] != *id {
            next.push(list[i].clone());
            assert(string_views(next@) =~= prev.push(lv[i as int]));
        } else {
            assert(string_views(next@) =~= prev);
        }
        i = i + 1;
    }
    assert(lv.take(list.len() as int) =~= lv);
    proof {
        let key = |s: Seq<char>| s;
        assert(crate::text::sorted_by_key(lv, key));
        crate::text::lemma_filter_sorted(lv, pred, key);
        let f = lv.filter(pred);
        assert forall|j: int| 0 <= j < f.len() implies (#[trigger] f[j]).len() > 0 && is_trimmed(f[j]) by {
            let m = choose|m: int| 0 <= m < lv.len() && lv[m] == f[j];
        }
        assert forall|x: Seq<char>| f.to_set().contains(x) <==> lv.to_set().remove(id@).contains(x) by {
            if lv.to_set().remove(id@).contains(x) {
                let m = choose|m: int| 0 <= m < lv.len() && lv[m] == x;
                lv.filter_lemma(pred);
                assert(lv.subrange(0, lv.len() as int) =~= lv);
                lemma_filter_contains(lv, pred, m);
            }
        }
        assert(f.to_set() =~= lv.to_set().remove(id@));
    }
    next
}

/// `list` with `id` added; `list` must be clean and `id` trimmed and
/// non-empty.
fn add_to_list(list: &Vec<String>, id: &String) -> (r: Vec<String>)
    requires
        is_clean_list(string_views(list@)),
        id@.len() > 0,
        is_trimmed(id@),
    ensures
        string_views(r@) == list_with(string_views(list@), id@),
        is_clean_list(string_views(r@)),
        string_views(r@).to_set() == string_views(list@).to_set().insert(id@),
{
    let ghost lv = string_views(list@);
    let mut next: Vec<String> = Vec::new();
    let mut i: usize = 0;
    while i < list.len()
        invariant
            i <= list.len(),
            lv == string_views(list@),
            string_views(next@) == lv.take(i as int),
        decreases list.len() - i,
    {
        let ghost prev = string_views(next@);
        next.push(list[i].clone());
        assert(string_views(next@) =~= prev.push(lv[i as int]));
        i = i + 1;
        assert(string_views(next@) =~= lv.take(i as int));
    }
    let ghost prev = string_views(next@);
    next.push(id.clone());
    assert(string_views(next@) =~= lv.push(id@)) by {
        assert(lv.take(list.len() as int) =~= lv);
    }
    proof {
        let nv = string_views(next@);
        assert forall|j: int| 0 <= j < nv.len() implies (#[trigger] nv[j]).len() > 0 && is_trimmed(nv[j]) by {
            if j < lv.len() {
                assert(nv[j] == lv[j]);
            }
        }
        lemma_trimmed_set_of_clean(nv);
        assert forall|x: Seq<char>| nv.to_set().contains(x) <==> lv.to_set().insert(id@).contains(x) by {
            if nv.to_set().contains(x) {
                let j = choose|j: int| 0 <= j < nv.len() && nv[j] == x;
                if j < lv.len() {
                    assert(lv[j] == x);
                }
            }
            if lv.to_set().contains(x) {
                let j = choose|j: int| 0 <= j < lv.len() && lv[j] == x;
                assert(nv[j] == x);
            }
            if x == id@ {
                assert(nv[lv.len() as int] == x);
            }
        }
        assert(nv.to_set() =~= lv.to_set().insert(id@));
    }
    let r = canonical_ids(next.as_slice());
    proof {
        lemma_canonical_list_unique(string_views(r@), trimmed_set(string_views(next@)));
    }
    r
}

proof fn lemma_required_message(label: Seq<char>)
    ensures
        label == "plugin id"@ ==> "A valid "@ + label + " is required"@ == "A valid plugin id is required"@,
        label == "connection id"@ ==> "A valid "@ + label + " is required"@ == "A valid connection id is required"@,
{
    reveal_strlit("A valid ");
    reveal_strlit(" is required");
    reveal_strlit("plugin id");
    reveal_strlit("connection id");
    reveal_strlit("A valid plugin id is required");
    reveal_strlit("A valid connection id is required");
    if label == "plugin id"@ {
        assert("A valid "@ + label + " is required"@ =~= "A valid plugin id is required"@);
    }
    if label == "connection id"@ {
        assert("A valid "@ + label + " is required"@ =~= "A valid connection id is required"@);
    }
}

/// The plugin ids whose tools the AI agent may call, as stored.
pub open spec fn tool_plugins(settings: Seq<(String, JsonValue)>) -> Seq<Seq<char>> {
    string_list_setting(object_get(settings, AI_PLUGIN_TOOL_PLUGINS_KEY@))
}

/// Enables or disables the AI agent's access to one plugin's tools and
/// returns the updated list, which is stored back sorted and deduplicated.
pub fn set_ai_plugin_tool_plugin_enabled(
    settings: &mut Vec<(String, JsonValue)>,
    plugin_id: &str,
    enabled: bool,
) -> (r: Result<Vec<String>, String>)
    ensures
        match r {
            Ok(ids) => {
                &&& setting_id_ok(plugin_id@)
                &&& string_views(ids@) == if enabled {
                    list_with(tool_plugins(old(settings)@), trim(plugin_id@))
                } else {
                    list_without(tool_plugins(old(settings)@), trim(plugin_id@))
                }
                &&& forall|k: Seq<char>| #[trigger] object_get(final(settings)@, k) == if k == AI_PLUGIN_TOOL_PLUGINS_KEY@ {
                    object_get(final(settings)@, k)
                } else {
                    object_get(old(settings)@, k)
                }
                &&& object_get(final(settings)@, AI_PLUGIN_TOOL_PLUGINS_KEY@) matches Some(v) && is_text_array(
                    v,
                    string_views(ids@),
                )
            },
            Err(e) => !setting_id_ok(plugin_id@) && e@ == "A valid plugin id is required"@ && final(settings)@ == old(
                settings,
            )@,
        },
{
    let id = match normalized_setting_id(plugin_id, "plugin id") {
        Ok(id) => id,
        Err(e) => {
            proof {
                lemma_required_message("plugin id"@);
            }
            return Err(e);
        },
    };
    proof {
        lemma_trim_is_trimmed(plugin_id@);
    }
    let list = normalized_string_list(json_object_get(settings.as_slice(), AI_PLUGIN_TOOL_PLUGINS_KEY));
    let ids = if enabled {
        add_to_list(&list, &id)
    } else {
        remove_from_list(&list, &id)
    };
    let out = crate::text::copy_strings(ids.as_slice());
    let arr = json_text_array(out);
    json_object_insert(settings, AI_PLUGIN_TOOL_PLUGINS_KEY, arr);
    Ok(ids)
}

/// The per-plugin grants object, as stored (empty when absent or malformed).
pub open spec fn grants_of(settings: Seq<(String, JsonValue)>) -> Seq<(String, JsonValue)> {
    match object_get(settings, PLUGIN_DATA_GRANTS_KEY@) {
        Some(JsonValue::Object(g)) => g@,
        _ => Seq::empty(),
    }
}

/// The connections a plugin may read, as stored.
pub open spec fn plugin_grants(settings: Seq<(String, JsonValue)>, plugin: Seq<char>) -> Seq<Seq<char>> {
    string_list_setting(object_get(grants_of(settings), plugin))
}

fn stored_plugin_grants(settings: &Vec<(String, JsonValue)>, plugin: &str) -> (r: Vec<String>)
    ensures
        string_views(r@) == plugin_grants(settings@, plugin@),
        is_clean_list(string_views(r@)),
{
    match json_object_get(settings.as_slice(), PLUGIN_DATA_GRANTS_KEY) {
        Some(JsonValue::Object(g)) => normalized_string_list(json_object_get(g.as_slice(), plugin)),
        _ => {
            let r = normalized_string_list(None);
            proof {
                assert(object_get(Seq::<(String, JsonValue)>::empty(), plugin@) is None);
            }
            r
        },
    }
}

/// The message refusing a grant past the per-plugin limit.
pub open spec fn grant_limit_message() -> Seq<char> {
    "A plugin can hold at most 512 data access grants"@
}

/// The connections a plugin may read through the host data API.
pub fn load_plugin_data_grants(settings: &Vec<(String, JsonValue)>, plugin_id: &str) -> (r: Vec<String>)
    ensures
        string_views(r@) == plugin_grants(settings@, trim(plugin_id@)),
{
    let c = chars_of(plugin_id);
    let t = string_of(trim_chars(c.as_slice()).as_slice());
    stored_plugin_grants(settings, t.as_str())
}

/// What setting one plugin data grant does to the settings `before`,
/// giving `after` and `r`: refusals as the messages say, and otherwise the
/// plugin's new grant list, stored as a text array under the plugin (its
/// entry gone when the list is empty), every other plugin's grants and every
/// other setting kept.
pub open spec fn plugin_grant_set(
    before: Seq<(String, JsonValue)>,
    after: Seq<(String, JsonValue)>,
    plugin_id: Seq<char>,
    connection_id: Seq<char>,
    granted: bool,
    r: Result<Vec<String>, String>,
) -> bool {
        let pid = trim(plugin_id);
        let cid = trim(connection_id);
        let current = plugin_grants(before, pid);
        match r {
            Ok(list) => {
                &&& setting_id_ok(plugin_id) && setting_id_ok(connection_id)
                &&& !(granted && list_without(current, cid).len() >= MAX_PLUGIN_DATA_GRANTS_PER_PLUGIN)
                &&& (granted ==> list@.len() <= MAX_PLUGIN_DATA_GRANTS_PER_PLUGIN)
                &&& is_clean_list(string_views(list@))
                &&& string_views(list@) == if granted {
                    list_with(current, cid)
                } else {
                    list_without(current, cid)
                }
                &&& forall|k: Seq<char>| k != PLUGIN_DATA_GRANTS_KEY@ ==> #[trigger] object_get(after, k)
                    == object_get(before, k)
                &&& match object_get(after, PLUGIN_DATA_GRANTS_KEY@) {
                    Some(JsonValue::Object(g)) => {
                        &&& forall|p: Seq<char>| p != pid ==> #[trigger] object_get(g@, p) == object_get(
                            grants_of(before),
                            p,
                        )
                        &&& if list@.len() == 0 {
                            object_get(g@, pid) is None
                        } else {
                            object_get(g@, pid) matches Some(v) && is_text_array(v, string_views(list@))
                        }
                    },
                    None => list@.len() == 0 && forall|p: Seq<char>| #[trigger] object_get(grants_of(before), p) is Some ==> p == pid,
                    Some(_) => false,
                }
            },
            Err(e) => {
                &&& forall|k: Seq<char>| #[trigger] object_get(after, k) == object_get(before, k)
                &&& if !setting_id_ok(plugin_id) {
                    e@ == "A valid plugin id is required"@
                } else if !setting_id_ok(connection_id) {
                    e@ == "A valid connection id is required"@
                } else {
                    granted && list_without(current, cid).len() >= MAX_PLUGIN_DATA_GRANTS_PER_PLUGIN && e@
                        == grant_limit_message()
                }
            },
        }
}

/// Records or revokes the user's consent for one plugin to read one
/// connection and returns the plugin's updated grants. A plugin left with
/// no grants loses its entry, and the grants setting goes away when no
/// plugin has any.
pub fn set_plugin_data_grant(
    settings: &mut Vec<(String, JsonValue)>,
    plugin_id: &str,
    connection_id: &str,
    granted: bool,
) -> (r: Result<Vec<String>, String>)
    ensures
        plugin_grant_set(old(settings)@, final(settings)@, plugin_id@, connection_id@, granted, r),
{
    let pid = match normalized_setting_id(plugin_id, "plugin id") {
        Ok(id) => id,
        Err(e) => {
            proof {
                lemma_required_message("plugin id"@);
            }
            return Err(e);
        },
    };
    let cid = match normalized_setting_id(connection_id, "connection id") {
        Ok(id) => id,
        Err(e) => {
            proof {
                lemma_required_message("connection id"@);
            }
            return Err(e);
        },
    };
    proof {
        lemma_trim_is_trimmed(connection_id@);
    }
    let current = stored_plugin_grants(settings, pid.as_str());
    let retained = remove_from_list(&current, &cid);
    if granted && retained.len() >= MAX_PLUGIN_DATA_GRANTS_PER_PLUGIN {
        return Err(String::from_str("A plugin can hold at most 512 data access grants"));
    }
    let list = if granted {
        let l = add_to_list(&current, &cid);
        proof {
            let rv = string_views(retained@);
            let lv = string_views(l@);
            lemma_clean_len(rv);
            lemma_clean_len(lv);
            assert(lv.to_set() =~= rv.to_set().insert(cid@));
            vstd::set::axiom_set_insert_len(rv.to_set(), cid@);
        }
        l
    } else {
        retained
    };
    let ghost s0 = settings@;
    let ghost g0 = grants_of(s0);
    let mut grants = match json_object_remove(settings, PLUGIN_DATA_GRANTS_KEY) {
        Some(JsonValue::Object(g)) => g,
        _ => Vec::new(),
    };
    assert(grants@ == g0);
    let ghost s1 = settings@;
    if list.len() == 0 {
        let _ = json_object_remove(&mut grants, pid.as_str());
    } else {
        let arr = json_text_array(crate::text::copy_strings(list.as_slice()));
        json_object_insert(&mut grants, pid.as_str(), arr);
    }
    let ghost g1 = grants@;
    if grants.len() > 0 {
        json_object_insert(settings, PLUGIN_DATA_GRANTS_KEY, JsonValue::Object(grants));
    } else {
        proof {
            if list@.len() > 0 {
                assert(object_get(g1, pid@) is Some);
                assert(g1.len() == 0);
            }
            assert forall|p: Seq<char>| #[trigger] object_get(g0, p) is Some implies p == pid@ by {
                if p != pid@ {
                    assert(object_get(g1, p) == object_get(g0, p));
                    assert(g1.len() == 0);
                }
            }
        }
    }
    Ok(list)
}

/// Forgets everything the user granted a plugin: AI tool access and data
/// grants, so that a reinstall starts without consent.
pub fn forget_plugin_permissions(settings: &mut Vec<(String, JsonValue)>, plugin_id: &str) -> (r: Result<(), String>)
    ensures
        ({
            let pid = trim(plugin_id@);
            match r {
                Ok(_) => {
                    &&& setting_id_ok(plugin_id@)
                    &&& object_get(final(settings)@, AI_PLUGIN_TOOL_PLUGINS_KEY@) matches Some(v) && is_text_array(
                        v,
                        list_without(tool_plugins(old(settings)@), pid),
                    )
                    &&& match object_get(old(settings)@, PLUGIN_DATA_GRANTS_KEY@) {
                        Some(JsonValue::Object(g)) => object_get(final(settings)@, PLUGIN_DATA_GRANTS_KEY@) matches Some(
                            JsonValue::Object(g2),
                        ) && forall|p: Seq<char>| #[trigger] object_get(g2@, p) == if p == pid {
                            None
                        } else {
                            object_get(g@, p)
                        },
                        other => object_get(final(settings)@, PLUGIN_DATA_GRANTS_KEY@) == other,
                    }
                    &&& forall|k: Seq<char>| k != PLUGIN_DATA_GRANTS_KEY@ && k != AI_PLUGIN_TOOL_PLUGINS_KEY@ ==> #[trigger] object_get(
                        final(settings)@,
                        k,
                    ) == object_get(old(settings)@, k)
                },
                Err(e) => !setting_id_ok(plugin_id@) && e@ == "A valid plugin id is required"@ && final(settings)@
                    == old(settings)@,
            }
        }),
{
    let pid = match normalized_setting_id(plugin_id, "plugin id") {
        Ok(id) => id,
        Err(e) => {
            proof {
                lemma_required_message("plugin id"@);
            }
            return Err(e);
        },
    };
    let ghost s0 = settings@;
    let list = normalized_string_list(json_object_get(settings.as_slice(), AI_PLUGIN_TOOL_PLUGINS_KEY));
    let kept = remove_from_list(&list, &pid);
    let arr = json_text_array(kept);
    json_object_insert(settings, AI_PLUGIN_TOOL_PLUGINS_KEY, arr);
    let ghost s1 = settings@;
    proof {
        assert(AI_PLUGIN_TOOL_PLUGINS_KEY@ != PLUGIN_DATA_GRANTS_KEY@) by {
            reveal_strlit("ai_plugin_tool_plugins");
            reveal_strlit("plugin_data_grants");
            assert(AI_PLUGIN_TOOL_PLUGINS_KEY@.len() != PLUGIN_DATA_GRANTS_KEY@.len());
        }
        assert(object_get(s1, PLUGIN_DATA_GRANTS_KEY@) == object_get(s0, PLUGIN_DATA_GRANTS_KEY@));
    }
    let is_object = match json_object_get(settings.as_slice(), PLUGIN_DATA_GRANTS_KEY) {
        Some(JsonValue::Object(_)) => true,
        _ => false,
    };
    if is_object {
        let mut grants = match json_object_remove(settings, PLUGIN_DATA_GRANTS_KEY) {
            Some(JsonValue::Object(g)) => g,
            _ => Vec::new(),
        };
        let _ = json_object_remove(&mut grants, pid.as_str());
        json_object_insert(settings, PLUGIN_DATA_GRANTS_KEY, JsonValue::Object(grants));
    }
    Ok(())
}

/// Keys that only their dedicated writers may change: a save of the whole
/// settings object keeps what is stored under them.
pub open spec fn is_dedicated_key(k: Seq<char>) -> bool {
    ||| k == "mcp_global_policy"@
    ||| k == "web_mcp_settings"@
    ||| k == "max_retries"@
    ||| k == "sql_file_upload_max_mb"@
    ||| k == "history_retention_limit"@
    ||| k == "ai_plugin_tool_plugins"@
    ||| k == "plugin_data_grants"@
}

/// The value of `k` in optional stored settings.
pub open spec fn stored_get(c: Option<Vec<(String, JsonValue)>>, k: Seq<char>) -> Option<JsonValue> {
    match c {
        Some(v) => object_get(v@, k),
        None => None,
    }
}

fn carry_dedicated(settings: &mut Vec<(String, JsonValue)>, current: &mut Option<Vec<(String, JsonValue)>>, key: &str)
    ensures
        forall|k: Seq<char>| #[trigger] object_get(final(settings)@, k) == if k == key@ {
            stored_get(*old(current), k)
        } else {
            object_get(old(settings)@, k)
        },
        forall|k: Seq<char>| #[trigger] stored_get(*final(current), k) == if k == key@ {
            None
        } else {
            stored_get(*old(current), k)
        },
{
    let _ = json_object_remove(settings, key);
    match current {
        Some(c) => {
            if let Some(v) = json_object_remove(c, key) {
                json_object_insert(settings, key, v);
            }
        },
        None => {},
    }
}

proof fn lemma_dedicated_keys_distinct()
    ensures
        "mcp_global_policy"@.len() == 17,
        "web_mcp_settings"@.len() == 16,
        "max_retries"@.len() == 11,
        "sql_file_upload_max_mb"@.len() == 22,
        "history_retention_limit"@.len() == 23,
        "ai_plugin_tool_plugins"@.len() == 22,
        "plugin_data_grants"@.len() == 18,
        "sql_file_upload_max_mb"@ != "ai_plugin_tool_plugins"@,
{
    reveal_strlit("mcp_global_policy");
    reveal_strlit("web_mcp_settings");
    reveal_strlit("max_retries");
    reveal_strlit("sql_file_upload_max_mb");
    reveal_strlit("history_retention_limit");
    reveal_strlit("ai_plugin_tool_plugins");
    reveal_strlit("plugin_data_grants");
    assert("sql_file_upload_max_mb"@[0] != "ai_plugin_tool_plugins"@[0]);
}

/// Prepares a whole-object settings save: the dedicated keys take the
/// values currently stored (or none), whatever the caller's copy held, so
/// that a stale copy cannot undo a dedicated writer's change.
pub fn keep_dedicated_settings(settings: &mut Vec<(String, JsonValue)>, current: Option<Vec<(String, JsonValue)>>)
    ensures
        forall|k: Seq<char>| #[trigger] object_get(final(settings)@, k) == if is_dedicated_key(k) {
            stored_get(current, k)
        } else {
            object_get(old(settings)@, k)
        },
{
    let ghost c0 = current;
    let ghost s0 = settings@;
    let mut cur = current;
    carry_dedicated(settings, &mut cur, "mcp_global_policy");
    let ghost s1 = settings@;
    let ghost c1 = cur;
    carry_dedicated(settings, &mut cur, "web_mcp_settings");
    let ghost s2 = settings@;
    let ghost c2 = cur;
    carry_dedicated(settings, &mut cur, "max_retries");
    let ghost s3 = settings@;
    let ghost c3 = cur;
    carry_dedicated(settings, &mut cur, "sql_file_upload_max_mb");
    let ghost s4 = settings@;
    let ghost c4 = cur;
    carry_dedicated(settings, &mut cur, "history_retention_limit");
    let ghost s5 = settings@;
    let ghost c5 = cur;
    carry_dedicated(settings, &mut cur, "ai_plugin_tool_plugins");
    let ghost s6 = settings@;
    let ghost c6 = cur;
    carry_dedicated(settings, &mut cur, "plugin_data_grants");
    proof {
        lemma_dedicated_keys_distinct();
        assert forall|k: Seq<char>| #[trigger] object_get(settings@, k) == if is_dedicated_key(k) {
            stored_get(c0, k)
        } else {
            object_get(s0, k)
        } by {
            assert(object_get(s6, k) == object_get(s6, k));
            assert(object_get(s5, k) == object_get(s5, k));
            assert(object_get(s4, k) == object_get(s4, k));
            assert(object_get(s3, k) == object_get(s3, k));
            assert(object_get(s2, k) == object_get(s2, k));
            assert(object_get(s1, k) == object_get(s1, k));
            assert(stored_get(c6, k) == stored_get(c6, k));
            assert(stored_get(c5, k) == stored_get(c5, k));
            assert(stored_get(c4, k) == stored_get(c4, k));
            assert(stored_get(c3, k) == stored_get(c3, k));
            assert(stored_get(c2, k) == stored_get(c2, k));
            assert(stored_get(c1, k) == stored_get(c1, k));
        }
    }
}

/// Where the per-provider snippet ids are stored.
pub const SNIPPET_SYNC_IDS_KEY: &'static str = "snippet_sync_ids";
/// Where the per-provider pending legacy cleanups are stored.
pub const SNIPPET_PENDING_CLEANUPS_KEY: &'static str = "snippet_pending_legacy_cleanups";

/// A legacy snippet that must be deleted once a replacement is confirmed,
/// provided its content still has the recorded hash.
#[derive(Debug, Clone, PartialEq, Eq)]
pub struct SnippetPendingCleanup {
    pub snippet_id: String,
    pub expected_content_hash: String,
}

/// What is stored about one provider's snippet sync.
#[derive(Debug, Clone, PartialEq, Eq)]
pub struct SnippetSyncState {
    pub snippet_id: Option<String>,
    pub pending_cleanup: Option<SnippetPendingCleanup>,
}

/// A required snippet value: trimmed, and refused when blank.
pub fn required_snippet_state_value(value: &str, label: &str) -> (r: Result<String, String>)
    ensures
        match r {
            Ok(v) => trim(value@).len() > 0 && v@ == trim(value@),
            Err(e) => trim(value@).len() == 0 && e@ == label@ + " cannot be empty"@,
        },
{
    let c = chars_of(value);
    let t = trim_chars(c.as_slice());
    if t.len() == 0 {
        return Err(String::from_str(label).concat(" cannot be empty"));
    }
    Ok(string_of(t.as_slice()))
}

/// A pending cleanup with both values trimmed; refused when either is blank
/// (the snippet id is checked first).
pub fn validate_snippet_pending_cleanup(cleanup: SnippetPendingCleanup) -> (r: Result<SnippetPendingCleanup, String>)
    ensures
        match r {
            Ok(c) => trim(cleanup.snippet_id@).len() > 0 && trim(cleanup.expected_content_hash@).len() > 0
                && c.snippet_id@ == trim(cleanup.snippet_id@) && c.expected_content_hash@ == trim(
                cleanup.expected_content_hash@,
            ),
            Err(e) => if trim(cleanup.snippet_id@).len() == 0 {
                e@ == "legacy snippet id"@ + " cannot be empty"@
            } else {
                trim(cleanup.expected_content_hash@).len() == 0 && e@ == "legacy content hash"@ + " cannot be empty"@
            },
        },
{
    let id = match required_snippet_state_value(cleanup.snippet_id.as_str(), "legacy snippet id") {
        Ok(v) => v,
        Err(e) => {
            return Err(e);
        },
    };
    let hash = match required_snippet_state_value(cleanup.expected_content_hash.as_str(), "legacy content hash") {
        Ok(v) => v,
        Err(e) => {
            return Err(e);
        },
    };
    Ok(SnippetPendingCleanup { snippet_id: id, expected_content_hash: hash })
}

/// The per-provider object stored under `key` (empty when absent or not an
/// object).
pub open spec fn provider_map(settings: Seq<(String, JsonValue)>, key: Seq<char>) -> Seq<(String, JsonValue)> {
    match object_get(settings, key) {
        Some(JsonValue::Object(m)) => m@,
        _ => Seq::empty(),
    }
}

fn take_provider_map(settings: &mut Vec<(String, JsonValue)>, key: &str) -> (r: Vec<(String, JsonValue)>)
    ensures
        r@ == provider_map(old(settings)@, key@),
        forall|k: Seq<char>| #[trigger] object_get(final(settings)@, k) == if k == key@ {
            None
        } else {
            object_get(old(settings)@, k)
        },
{
    match json_object_remove(settings, key) {
        Some(JsonValue::Object(m)) => m,
        _ => Vec::new(),
    }
}

/// The snippet id stored for a provider: trimmed, absent when blank.
pub open spec fn stored_snippet_id(settings: Seq<(String, JsonValue)>, provider: Seq<char>) -> Option<Seq<char>> {
    dir_setting(object_get(provider_map(settings, SNIPPET_SYNC_IDS_KEY@), provider))
}

/// The snippet id stored for a provider.
pub fn load_snippet_sync_id(settings: &Vec<(String, JsonValue)>, provider: &str) -> (r: Option<String>)
    ensures
        opt_chars(r) == stored_snippet_id(settings@, provider@),
{
    match json_object_get(settings.as_slice(), SNIPPET_SYNC_IDS_KEY) {
        Some(JsonValue::Object(m)) => dir_setting_exec(m.as_slice(), provider),
        _ => {
            proof {
                assert(object_get(Seq::<(String, JsonValue)>::empty(), provider@) is None);
            }
            None
        },
    }
}

/// Records (or, for a blank or missing id, forgets) the snippet id of one
/// provider; the ids object is rewritten in any case.
pub fn save_snippet_sync_id(settings: &mut Vec<(String, JsonValue)>, provider: &str, snippet_id: Option<&str>)
    ensures
        forall|k: Seq<char>| k != SNIPPET_SYNC_IDS_KEY@ ==> #[trigger] object_get(final(settings)@, k) == object_get(
            old(settings)@,
            k,
        ),
        object_get(final(settings)@, SNIPPET_SYNC_IDS_KEY@) matches Some(JsonValue::Object(ids)) && (forall|p: Seq<char>|
            p != provider@ ==> #[trigger] object_get(ids@, p) == object_get(provider_map(old(settings)@, SNIPPET_SYNC_IDS_KEY@), p)) && match snippet_id {
            Some(id) if trim(id@).len() > 0 => object_get(ids@, provider@) matches Some(JsonValue::Text(t)) && t@ == trim(id@),
            _ => object_get(ids@, provider@) is None,
        },
{
    let mut ids = take_provider_map(settings, SNIPPET_SYNC_IDS_KEY);
    let trimmed: Option<Vec<char>> = match snippet_id {
        Some(id) => {
            let c = chars_of(id);
            let t = trim_chars(c.as_slice());
            if t.len() > 0 {
                Some(t)
            } else {
                None
            }
        },
        None => None,
    };
    match trimmed {
        Some(t) => json_object_insert(&mut ids, provider, JsonValue::Text(string_of(t.as_slice()))),
        None => {
            let _ = json_object_remove(&mut ids, provider);
        },
    }
    json_object_insert(settings, SNIPPET_SYNC_IDS_KEY, JsonValue::Object(ids));
}

/// Records that `replacement` now syncs a provider's snippets and that the
/// legacy snippet must be cleaned up, if its content still hashes to
/// `expected_content_hash`. All three values are required.
pub fn save_snippet_migration_state(
    settings: &mut Vec<(String, JsonValue)>,
    provider: &str,
    replacement_snippet_id: &str,
    legacy_snippet_id: &str,
    expected_content_hash: &str,
) -> (r: Result<(), String>)
    ensures
        match r {
            Ok(_) => {
                &&& trim(replacement_snippet_id@).len() > 0 && trim(legacy_snippet_id@).len() > 0 && trim(
                    expected_content_hash@,
                ).len() > 0
                &&& forall|k: Seq<char>| k != SNIPPET_SYNC_IDS_KEY@ && k != SNIPPET_PENDING_CLEANUPS_KEY@
                    ==> #[trigger] object_get(final(settings)@, k) == object_get(old(settings)@, k)
                &&& stored_snippet_id(final(settings)@, provider@) == Some(trim(replacement_snippet_id@))
                &&& object_get(provider_map(final(settings)@, SNIPPET_PENDING_CLEANUPS_KEY@), provider@) matches Some(
                    JsonValue::Object(c),
                ) && text_of(object_get(c@, "snippetId"@)) == Some(trim(legacy_snippet_id@)) && text_of(
                    object_get(c@, "expectedContentHash"@),
                ) == Some(trim(expected_content_hash@))
            },
            Err(e) => final(settings)@ == old(settings)@ && if trim(replacement_snippet_id@).len() == 0 {
                e@ == "replacement snippet id"@ + " cannot be empty"@
            } else if trim(legacy_snippet_id@).len() == 0 {
                e@ == "legacy snippet id"@ + " cannot be empty"@
            } else {
                trim(expected_content_hash@).len() == 0 && e@ == "legacy content hash"@ + " cannot be empty"@
            },
        },
{
    let replacement = match required_snippet_state_value(replacement_snippet_id, "replacement snippet id") {
        Ok(v) => v,
        Err(e) => {
            return Err(e);
        },
    };
    let legacy = match required_snippet_state_value(legacy_snippet_id, "legacy snippet id") {
        Ok(v) => v,
        Err(e) => {
            return Err(e);
        },
    };
    let hash = match required_snippet_state_value(expected_content_hash, "legacy content hash") {
        Ok(v) => v,
        Err(e) => {
            return Err(e);
        },
    };
    proof {
        lemma_trim_is_trimmed(replacement_snippet_id@);
        lemma_snippet_keys_distinct();
    }
    let ghost s0 = settings@;
    let mut ids = take_provider_map(settings, SNIPPET_SYNC_IDS_KEY);
    json_object_insert(&mut ids, provider, JsonValue::Text(replacement));
    json_object_insert(settings, SNIPPET_SYNC_IDS_KEY, JsonValue::Object(ids));
    let ghost s1 = settings@;
    let mut pending = take_provider_map(settings, SNIPPET_PENDING_CLEANUPS_KEY);
    let mut entry: Vec<(String, JsonValue)> = Vec::new();
    json_object_insert(&mut entry, "snippetId", JsonValue::Text(legacy));
    json_object_insert(&mut entry, "expectedContentHash", JsonValue::Text(hash));
    proof {
        assert(object_get(entry@, "snippetId"@) is Some);
    }
    json_object_insert(&mut pending, provider, JsonValue::Object(entry));
    json_object_insert(settings, SNIPPET_PENDING_CLEANUPS_KEY, JsonValue::Object(pending));
    proof {
        assert(object_get(settings@, SNIPPET_SYNC_IDS_KEY@) == object_get(s1, SNIPPET_SYNC_IDS_KEY@));
        lemma_trimmed_fixed(trim(replacement_snippet_id@));
    }
    Ok(())
}

proof fn lemma_snippet_keys_distinct()
    ensures
        SNIPPET_SYNC_IDS_KEY@ != SNIPPET_PENDING_CLEANUPS_KEY@,
        "snippetId"@ != "expectedContentHash"@,
{
    reveal_strlit("snippet_sync_ids");
    reveal_strlit("snippet_pending_legacy_cleanups");
    reveal_strlit("snippetId");
    reveal_strlit("expectedContentHash");
    assert(SNIPPET_SYNC_IDS_KEY@.len() != SNIPPET_PENDING_CLEANUPS_KEY@.len());
    assert("snippetId"@.len() != "expectedContentHash"@.len());
}

/// Whether a stored pending cleanup is the one expected.
pub fn pending_cleanup_matches(current: &Option<SnippetPendingCleanup>, expected: &SnippetPendingCleanup) -> (r: bool)
    ensures
        r == (current matches Some(c) && c.snippet_id@ == expected.snippet_id@ && c.expected_content_hash@
            == expected.expected_content_hash@),
{
    match current {
        Some(c) => c.snippet_id == expected.snippet_id && c.expected_content_hash == expected.expected_content_hash,
        None => false,
    }
}

/// Removes a provider's pending cleanup.
pub fn remove_pending_cleanup(settings: &mut Vec<(String, JsonValue)>, provider: &str)
    ensures
        forall|k: Seq<char>| k != SNIPPET_PENDING_CLEANUPS_KEY@ ==> #[trigger] object_get(final(settings)@, k)
            == object_get(old(settings)@, k),
        object_get(final(settings)@, SNIPPET_PENDING_CLEANUPS_KEY@) matches Some(JsonValue::Object(m)) && forall|p: Seq<char>|
            #[trigger] object_get(m@, p) == if p == provider@ {
                None
            } else {
                object_get(provider_map(old(settings)@, SNIPPET_PENDING_CLEANUPS_KEY@), p)
            },
{
    let mut pending = take_provider_map(settings, SNIPPET_PENDING_CLEANUPS_KEY);
    let _ = json_object_remove(&mut pending, provider);
    json_object_insert(settings, SNIPPET_PENDING_CLEANUPS_KEY, JsonValue::Object(pending));
}

/// The two fields of a stored pending cleanup, where the value has a shape
/// a cleanup is read from: an object with string `snippetId` and
/// `expectedContentHash`, or an array of exactly those two strings.
pub open spec fn cleanup_fields(v: JsonValue) -> Option<(Seq<char>, Seq<char>)> {
    match v {
        JsonValue::Object(c) => match (
            text_of(object_get(c@, "snippetId"@)),
            text_of(object_get(c@, "expectedContentHash"@)),
        ) {
            (Some(a), Some(b)) => Some((a, b)),
            _ => None,
        },
        JsonValue::Array(items) => if items@.len() == 2 {
            match (items@[0], items@[1]) {
                (JsonValue::Text(a), JsonValue::Text(b)) => Some((a@, b@)),
                _ => None,
            }
        } else {
            None
        },
        _ => None,
    }
}

/// What the settings hold as a provider's pending cleanup: `Some(None)`
/// where none is stored, `Some(Some((id, hash)))` (trimmed) for a readable
/// one, and `None` where the stored value cannot be read or is blank.
pub open spec fn pending_cleanup_state(settings: Seq<(String, JsonValue)>, provider: Seq<char>) -> Option<
    Option<(Seq<char>, Seq<char>)>,
> {
    match object_get(provider_map(settings, SNIPPET_PENDING_CLEANUPS_KEY@), provider) {
        None => Some(None),
        Some(v) => match cleanup_fields(v) {
            Some((a, b)) => if trim(a).len() > 0 && trim(b).len() > 0 {
                Some(Some((trim(a), trim(b))))
            } else {
                None
            },
            None => None,
        },
    }
}

/// The pending cleanup stored for a provider, if any; refused where the
/// stored value cannot be read as a cleanup or either of its values is
/// blank.
pub fn load_snippet_pending_cleanup(settings: &Vec<(String, JsonValue)>, provider: &str) -> (r: Result<
    Option<SnippetPendingCleanup>,
    String,
>)
    ensures
        match r {
            Ok(None) => pending_cleanup_state(settings@, provider@) == Some(None::<(Seq<char>, Seq<char>)>),
            Ok(Some(c)) => pending_cleanup_state(settings@, provider@) == Some(
                Some((c.snippet_id@, c.expected_content_hash@)),
            ),
            Err(e) => {
                &&& pending_cleanup_state(settings@, provider@) is None
                &&& match object_get(provider_map(settings@, SNIPPET_PENDING_CLEANUPS_KEY@), provider@) {
                    Some(v) => match cleanup_fields(v) {
                        None => e@ == "invalid pending snippet cleanup state: expected string snippetId and expectedContentHash"@,
                        Some((a, b)) => if trim(a).len() == 0 {
                            e@ == "legacy snippet id"@ + " cannot be empty"@
                        } else {
                            e@ == "legacy content hash"@ + " cannot be empty"@
                        },
                    },
                    None => false,
                }
            },
        },
{
    let map: &[(String, JsonValue)] = match json_object_get(settings.as_slice(), SNIPPET_PENDING_CLEANUPS_KEY) {
        Some(JsonValue::Object(m)) => m.as_slice(),
        _ => {
            assert(object_get(Seq::<(String, JsonValue)>::empty(), provider@) is None);
            return Ok(None);
        },
    };
    let fields: Option<(String, String)> = match json_object_get(map, provider) {
        None => {
            return Ok(None);
        },
        Some(JsonValue::Object(c)) => match (
            json_as_str(json_object_get(c.as_slice(), "snippetId")),
            json_as_str(json_object_get(c.as_slice(), "expectedContentHash")),
        ) {
            (Some(a), Some(b)) => Some((String::from_str(a), String::from_str(b))),
            _ => None,
        },
        Some(JsonValue::Array(items)) => if items.len() == 2 {
            match (&items[0], &items[1]) {
                (JsonValue::Text(a), JsonValue::Text(b)) => Some((a.clone(), b.clone())),
                _ => None,
            }
        } else {
            None
        },
        Some(_) => None,
    };
    match fields {
        None => Err(
            String::from_str(
                "invalid pending snippet cleanup state: expected string snippetId and expectedContentHash",
            ),
        ),
        Some((a, b)) => {
            let c = validate_snippet_pending_cleanup(SnippetPendingCleanup { snippet_id: a, expected_content_hash: b });
            match c {
                Ok(c) => Ok(Some(c)),
                Err(e) => Err(e),
            }
        },
    }
}

/// What clearing a provider's pending cleanup, if it is the expected
/// (id, hash), does to the settings `before`, giving `after` and `r`: an
/// unreadable stored cleanup is refused; otherwise `r` says whether the
/// stored one is the expected one, and only then is it removed, every other
/// setting and every other provider's cleanup kept.
pub open spec fn cleanup_cleared(
    before: Seq<(String, JsonValue)>,
    after: Seq<(String, JsonValue)>,
    provider: Seq<char>,
    expected_id: Seq<char>,
    expected_hash: Seq<char>,
    r: Result<bool, String>,
) -> bool {
    &&& r is Err <==> pending_cleanup_state(before, provider) is None
    &&& r matches Ok(b) ==> b == (pending_cleanup_state(before, provider) == Some(Some((expected_id, expected_hash))))
    &&& !(r matches Ok(true)) ==> after == before
    &&& r matches Ok(true) ==> {
        &&& forall|k: Seq<char>| k != SNIPPET_PENDING_CLEANUPS_KEY@ ==> #[trigger] object_get(after, k) == object_get(
            before,
            k,
        )
        &&& object_get(after, SNIPPET_PENDING_CLEANUPS_KEY@) matches Some(JsonValue::Object(m)) && forall|
            p: Seq<char>,
        | #[trigger] object_get(m@, p) == if p == provider {
            None
        } else {
            object_get(provider_map(before, SNIPPET_PENDING_CLEANUPS_KEY@), p)
        }
    }
}

/// Removes a provider's pending cleanup only where the stored one (read as
/// `load_snippet_pending_cleanup` reads it) equals `expected`; returns
/// whether it did. A stored value that cannot be read is refused, and the
/// settings change only where the cleanup is removed.
pub fn clear_snippet_pending_cleanup_if_matches(
    settings: &mut Vec<(String, JsonValue)>,
    provider: &str,
    expected: &SnippetPendingCleanup,
) -> (r: Result<bool, String>)
    ensures
        cleanup_cleared(
            old(settings)@,
            final(settings)@,
            provider@,
            expected.snippet_id@,
            expected.expected_content_hash@,
            r,
        ),
{
    let current = load_snippet_pending_cleanup(settings, provider)?;
    if pending_cleanup_matches(&current, expected) {
        remove_pending_cleanup(settings, provider);
        Ok(true)
    } else {
        Ok(false)
    }
}

/// After a snippet migration is recorded, the provider's pending cleanup
/// reads back as the legacy id and content hash that were recorded; so a
/// later clear removes it exactly when it is asked for that pair, and leaves
/// the replacement snippet id as it is.
pub proof fn lemma_snippet_cleanup_reads_back(
    settings: Seq<(String, JsonValue)>,
    provider: Seq<char>,
    legacy_snippet_id: Seq<char>,
    expected_content_hash: Seq<char>,
)
    requires
        trim(legacy_snippet_id).len() > 0,
        trim(expected_content_hash).len() > 0,
        object_get(provider_map(settings, SNIPPET_PENDING_CLEANUPS_KEY@), provider) matches Some(JsonValue::Object(c))
            && text_of(object_get(c@, "snippetId"@)) == Some(trim(legacy_snippet_id)) && text_of(
            object_get(c@, "expectedContentHash"@),
        ) == Some(trim(expected_content_hash)),
    ensures
        pending_cleanup_state(settings, provider) == Some(
            Some((trim(legacy_snippet_id), trim(expected_content_hash))),
        ),
{
    lemma_trim_is_trimmed(legacy_snippet_id);
    lemma_trim_is_trimmed(expected_content_hash);
    lemma_trimmed_fixed(trim(legacy_snippet_id));
    lemma_trimmed_fixed(trim(expected_content_hash));
}

/// Most characters of the AI agent's global instructions.
pub const MAX_GLOBAL_INSTRUCTIONS_CHARS: usize = 8000;

/// The AI agent's global instructions as stored: trimmed, and refused when
/// longer than 8000 characters.
pub fn validate_ai_global_custom_instructions(content: &str) -> (r: Result<String, String>)
    ensures
        match r {
            Ok(s) => trim(content@).len() <= MAX_GLOBAL_INSTRUCTIONS_CHARS && s@ == trim(content@),
            Err(e) => trim(content@).len() > MAX_GLOBAL_INSTRUCTIONS_CHARS && e@
                == "global instructions too long (max 8000 chars)"@,
        },
{
    let c = chars_of(content);
    let t = trim_chars(c.as_slice());
    if t.len() > MAX_GLOBAL_INSTRUCTIONS_CHARS {
        return Err(String::from_str("global instructions too long (max 8000 chars)"));
    }
    Ok(string_of(t.as_slice()))
}

/// The pinned tree nodes stored: the strings of the stored array.
pub fn load_pinned_tree_node_ids(settings: &Vec<(String, JsonValue)>) -> (r: Vec<String>)
    ensures
        string_views(r@) == match object_get(settings@, "pinned_tree_node_ids"@) {
            Some(JsonValue::Array(items)) => texts_in(items@),
            _ => Seq::empty(),
        },
{
    match json_object_get(settings.as_slice(), "pinned_tree_node_ids") {
        Some(JsonValue::Array(items)) => texts_of_items(items.as_slice()),
        _ => {
            let v: Vec<String> = Vec::new();
            assert(string_views(v@) =~= Seq::<Seq<char>>::empty());
            v
        },
    }
}

/// Stores the pinned tree nodes, in order.
pub fn save_pinned_tree_node_ids(settings: &mut Vec<(String, JsonValue)>, ids: &[String])
    ensures
        forall|k: Seq<char>| k != "pinned_tree_node_ids"@ ==> #[trigger] object_get(final(settings)@, k) == object_get(
            old(settings)@,
            k,
        ),
        object_get(final(settings)@, "pinned_tree_node_ids"@) matches Some(v) && is_text_array(v, string_views(ids@)),
{
    let arr = json_text_array(crate::text::copy_strings(ids));
    json_object_insert(settings, "pinned_tree_node_ids", arr);
}

/// The optional MCP Streamable HTTP server of the desktop application. Its
/// token is kept in a private file, not here.
#[derive(Debug, Clone, PartialEq, Eq)]
pub struct McpHttpServerSettings {
    pub enabled: bool,
    pub host: String,
    pub port: u16,
    pub path: String,
    pub allow_remote: bool,
    pub allowed_hosts: Vec<String>,
    pub allowed_origins: Vec<String>,
}

impl McpHttpServerSettings {
    /// The server's settings before any are saved: off, on the loopback
    /// address, port 5225, path `/mcp`, local only.
    pub fn defaults() -> (r: Self)
        ensures
            !r.enabled,
            r.host@ == "127.0.0.1"@,
            r.port == 5225,
            r.path@ == "/mcp"@,
            !r.allow_remote,
            r.allowed_hosts@.len() == 0,
            r.allowed_origins@.len() == 0,
    {
        McpHttpServerSettings {
            enabled: false,
            host: String::from_str("127.0.0.1"),
            port: 5225,
            path: String::from_str("/mcp"),
            allow_remote: false,
            allowed_hosts: Vec::new(),
            allowed_origins: Vec::new(),
        }
    }
}

/// The optional DBX Web MCP endpoint. Its bearer token lives in the
/// encrypted secret store, not here.
#[derive(Debug, Clone, PartialEq, Eq)]
pub struct WebMcpSettings {
    pub enabled: bool,
    pub allowed_hosts: Vec<String>,
    pub allowed_origins: Vec<String>,
}

impl WebMcpSettings {
    /// Disabled, with no allowed hosts or origins.
    pub fn defaults() -> (r: Self)
        ensures
            !r.enabled,
            r.allowed_hosts@.len() == 0,
            r.allowed_origins@.len() == 0,
    {
        WebMcpSettings { enabled: false, allowed_hosts: Vec::new(), allowed_origins: Vec::new() }
    }
}

/// A stored count, saturated to `u32`.
pub open spec fn u32_saturating_of(v: Option<JsonValue>) -> Option<u32> {
    match u64_of(v) {
        Some(n) => Some(if n > u32::MAX {
            u32::MAX
        } else {
            n as u32
        }),
        None => None,
    }
}

/// A stored count such as the retry limit, saturated to `u32`; the caller
/// clamps it to the setting's own range.
pub fn stored_u32_saturating(settings: &Vec<(String, JsonValue)>, key: &str) -> (r: Option<u32>)
    ensures
        r == u32_saturating_of(object_get(settings@, key@)),
{
    match json_as_u64(json_object_get(settings.as_slice(), key)) {
        Some(n) => Some(if n > u32::MAX as u64 {
            u32::MAX
        } else {
            n as u32
        }),
        None => None,
    }
}

/// A stored count that must fit in `u32` exactly, such as the history
/// retention limit.
pub fn stored_u32(settings: &Vec<(String, JsonValue)>, key: &str) -> (r: Option<u32>)
    ensures
        r == match u64_of(object_get(settings@, key@)) {
            Some(n) => if n <= u32::MAX {
                Some(n as u32)
            } else {
                None
            },
            None => None,
        },
{
    match json_as_u64(json_object_get(settings.as_slice(), key)) {
        Some(n) => if n <= u32::MAX as u64 {
            Some(n as u32)
        } else {
            None
        },
        None => None,
    }
}

/// Stores a count.
pub fn save_count_setting(settings: &mut Vec<(String, JsonValue)>, key: &str, value: u32)
    ensures
        forall|k: Seq<char>| #[trigger] object_get(final(settings)@, k) == if k == key@ {
            Some(JsonValue::Number(JsonNumber::PosInt(value as u64)))
        } else {
            object_get(old(settings)@, k)
        },
{
    json_object_insert(settings, key, JsonValue::Number(JsonNumber::PosInt(value as u64)));
}

/// After a snippet migration is recorded (replacement snippet id `rid`,
/// legacy id and content hash), clearing the provider's pending cleanup for
/// an expected (id, hash) succeeds and says whether that pair is the one
/// recorded; where it is, the cleanup is gone, where it is not, the cleanup
/// stays as recorded; the replacement snippet id stays either way.
pub proof fn lemma_snippet_clear_after_save(
    saved: Seq<(String, JsonValue)>,
    after: Seq<(String, JsonValue)>,
    provider: Seq<char>,
    rid: Seq<char>,
    legacy_snippet_id: Seq<char>,
    expected_content_hash: Seq<char>,
    expected_id: Seq<char>,
    expected_hash: Seq<char>,
    r: Result<bool, String>,
)
    requires
        trim(legacy_snippet_id).len() > 0,
        trim(expected_content_hash).len() > 0,
        stored_snippet_id(saved, provider) == Some(rid),
        object_get(provider_map(saved, SNIPPET_PENDING_CLEANUPS_KEY@), provider) matches Some(JsonValue::Object(c))
            && text_of(object_get(c@, "snippetId"@)) == Some(trim(legacy_snippet_id)) && text_of(
            object_get(c@, "expectedContentHash"@),
        ) == Some(trim(expected_content_hash)),
        cleanup_cleared(saved, after, provider, expected_id, expected_hash, r),
    ensures
        r matches Ok(b) && b == (expected_id == trim(legacy_snippet_id) && expected_hash == trim(
            expected_content_hash,
        )),
        r matches Ok(false) ==> pending_cleanup_state(after, provider) == Some(
            Some((trim(legacy_snippet_id), trim(expected_content_hash))),
        ),
        r matches Ok(true) ==> pending_cleanup_state(after, provider) == Some(None::<(Seq<char>, Seq<char>)>),
        stored_snippet_id(after, provider) == Some(rid),
{
    lemma_snippet_cleanup_reads_back(saved, provider, legacy_snippet_id, expected_content_hash);
    lemma_snippet_keys_distinct();
    if r matches Ok(true) {
        assert(object_get(after, SNIPPET_SYNC_IDS_KEY@) == object_get(saved, SNIPPET_SYNC_IDS_KEY@));
        let m = provider_map(after, SNIPPET_PENDING_CLEANUPS_KEY@);
        assert(object_get(m, provider) is None);
    }
}

proof fn lemma_texts_of_text_items(items: Seq<JsonValue>, ps: Seq<Seq<char>>)
    requires
        text_items(items) == Some(ps),
    ensures
        texts_in(items) == ps,
    decreases items.len(),
{
    if items.len() > 0 {
        let p = text_items(items.drop_last()).unwrap();
        lemma_texts_of_text_items(items.drop_last(), p);
        assert(ps =~= p + seq![ps.last()]);
    } else {
        assert(ps =~= Seq::<Seq<char>>::empty());
    }
}

/// Setting a plugin data grant and reading the plugin's grants back gives
/// the list the call returned; every other plugin's grants read as before,
/// and a refused call changes no plugin's grants.
pub proof fn lemma_plugin_grant_reads_back(
    before: Seq<(String, JsonValue)>,
    after: Seq<(String, JsonValue)>,
    plugin_id: Seq<char>,
    connection_id: Seq<char>,
    granted: bool,
    r: Result<Vec<String>, String>,
)
    requires
        plugin_grant_set(before, after, plugin_id, connection_id, granted, r),
    ensures
        r matches Ok(list) ==> plugin_grants(after, trim(plugin_id)) == string_views(list@),
        forall|p: Seq<char>|
            (r is Err || p != trim(plugin_id)) ==> #[trigger] plugin_grants(after, p) == plugin_grants(before, p),
{
    lemma_canonical_of_clean(Seq::<Seq<char>>::empty());
    match r {
        Ok(list) => {
            let pid = trim(plugin_id);
            let lv = string_views(list@);
            lemma_canonical_of_clean(lv);
            match object_get(after, PLUGIN_DATA_GRANTS_KEY@) {
                Some(JsonValue::Object(g)) => {
                    if list@.len() > 0 {
                        let v = object_get(g@, pid).unwrap();
                        match v {
                            JsonValue::Array(items) => {
                                lemma_texts_of_text_items(items@, lv);
                            },
                            _ => {},
                        }
                    } else {
                        assert(lv =~= Seq::<Seq<char>>::empty());
                    }
                },
                _ => {
                    assert(lv =~= Seq::<Seq<char>>::empty());
                    assert forall|p: Seq<char>| p != pid implies #[trigger] plugin_grants(after, p) == plugin_grants(
                        before,
                        p,
                    ) by {
                        if object_get(grants_of(before), p) is Some {
                        }
                    }
                },
            }
        },
        Err(_) => {
            assert(object_get(after, PLUGIN_DATA_GRANTS_KEY@) == object_get(before, PLUGIN_DATA_GRANTS_KEY@));
        },
    }
}

/// The settings object from what the settings row holds: no row gives the
/// empty object; text that is not JSON gives the parser's error; JSON that
/// is not an object is refused.
pub fn app_settings_from_stored(stored: Option<Result<JsonValue, String>>) -> (r: Result<Vec<(String, JsonValue)>, String>)
    ensures
        match stored {
            None => r matches Ok(e) && e@.len() == 0,
            Some(Err(msg)) => r matches Err(m) && m@ == msg@,
            Some(Ok(JsonValue::Object(e))) => r matches Ok(x) && x@ == e@,
            Some(Ok(_)) => r matches Err(m) && m@ == "app settings JSON must be an object"@,
        },
{
    match stored {
        None => Ok(Vec::new()),
        Some(Err(msg)) => Err(msg),
        Some(Ok(JsonValue::Object(e))) => Ok(e),
        Some(Ok(_)) => Err(String::from_str("app settings JSON must be an object")),
    }
}

} // verus!
