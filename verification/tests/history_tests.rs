use dbx_storage::history::{
    escape_history_like_pattern, history_connection_options, history_filter_targets_connection, history_page_limit,
    history_page_predicate, history_search_predicate, split_history_page, HistoryConnectionFilter, HistoryCursor,
    HistoryDatabaseFilter, HistorySearchRequest, SqlValue,
};

fn request() -> HistorySearchRequest {
    HistorySearchRequest {
        connections: Vec::new(),
        databases: Vec::new(),
        activity_kind: None,
        success: None,
        started_at: None,
        ended_at: None,
        search_text: String::new(),
        cursor: None,
        limit: 0,
    }
}

fn conn(id: &str, name: &str) -> HistoryConnectionFilter {
    HistoryConnectionFilter { connection_id: id.to_string(), connection_name: name.to_string() }
}

fn db(id: &str, name: &str, database: &str) -> HistoryDatabaseFilter {
    HistoryDatabaseFilter { connection_id: id.to_string(), connection_name: name.to_string(), database: database.to_string() }
}

fn t(s: &str) -> SqlValue {
    SqlValue::Text(s.to_string())
}

#[test]
fn like_patterns_escape_wildcards() {
    assert_eq!(escape_history_like_pattern(r"50%_a\b"), r"50\%\_a\\b");
    assert_eq!(escape_history_like_pattern("plain"), "plain");
}

#[test]
fn empty_search_has_no_predicate() {
    let (p, v) = history_search_predicate(&request());
    assert_eq!(p, "");
    assert!(v.is_empty());
}

#[test]
fn database_selection_narrows_its_connection() {
    let mut r = request();
    r.connections = vec![conn("c1", "One"), conn("c2", "Two"), conn("", "Legacy")];
    r.databases = vec![db("c1", "One", "app"), db("", "Legacy", "")];
    let (p, v) = history_search_predicate(&r);
    assert_eq!(
        p,
        " WHERE (connection_id = ? OR (connection_id = '' AND connection_name = ?) OR (connection_id = ? AND database = ?))"
    );
    assert_eq!(v, vec![t("c2"), t("Legacy"), t("c1"), t("app")]);
}

#[test]
fn filters_and_search_are_parameter_bound() {
    let mut r = request();
    r.activity_kind = Some("query".to_string());
    r.success = Some(false);
    r.started_at = Some(String::new());
    r.ended_at = Some("2026-01-01".to_string());
    r.search_text = "  a_b ".to_string();
    let (p, v) = history_search_predicate(&r);
    let like = "(sql_text LIKE ? ESCAPE '\\' COLLATE NOCASE OR connection_name LIKE ? ESCAPE '\\' COLLATE NOCASE OR database LIKE ? ESCAPE '\\' COLLATE NOCASE OR operation LIKE ? ESCAPE '\\' COLLATE NOCASE OR target LIKE ? ESCAPE '\\' COLLATE NOCASE)";
    assert_eq!(
        p,
        format!(" WHERE activity_kind = ? AND success = ? AND julianday(executed_at) <= julianday(?) AND {like}")
    );
    let pat = t(r"%a\_b%");
    assert_eq!(
        v,
        vec![t("query"), SqlValue::Integer(0), t("2026-01-01"), pat.clone(), pat.clone(), pat.clone(), pat.clone(), pat]
    );
}

#[test]
fn targets_match_by_id_then_by_name() {
    assert!(history_filter_targets_connection(&conn("a", "x"), &db("a", "y", "d")));
    assert!(!history_filter_targets_connection(&conn("a", "x"), &db("", "x", "d")));
    assert!(history_filter_targets_connection(&conn("", "x"), &db("", "x", "d")));
    assert!(!history_filter_targets_connection(&conn("", ""), &db("", "", "d")));
}

#[test]
fn pages_are_bounded_and_continue_after_the_cursor() {
    assert_eq!(history_page_limit(0), 100);
    assert_eq!(history_page_limit(1), 1);
    assert_eq!(history_page_limit(500), 200);
    let cursor = Some(HistoryCursor { executed_at: "t".to_string(), id: "i".to_string() });
    let (p, v) = history_page_predicate(String::new(), Vec::new(), &cursor);
    assert_eq!(p, " WHERE (executed_at < ? OR (executed_at = ? AND id < ?))");
    assert_eq!(v, vec![t("t"), t("t"), t("i")]);
    let (p, _) = history_page_predicate(" WHERE x = ?".to_string(), vec![t("x")], &cursor);
    assert_eq!(p, " WHERE x = ? AND (executed_at < ? OR (executed_at = ? AND id < ?))");
    let (page, more) = split_history_page(vec![1, 2, 3], 2);
    assert_eq!(page, vec![1, 2]);
    assert!(more);
    let (page, more) = split_history_page(vec![1, 2], 2);
    assert_eq!(page, vec![1, 2]);
    assert!(!more);
}

#[test]
fn connection_options_group_rows_in_order() {
    let rows = vec![
        ("c1".to_string(), "One".to_string(), "app".to_string()),
        ("".to_string(), "Legacy".to_string(), "".to_string()),
        ("c1".to_string(), "Renamed".to_string(), "app".to_string()),
        ("c1".to_string(), "One".to_string(), "logs".to_string()),
        ("".to_string(), "Legacy".to_string(), "main".to_string()),
        ("".to_string(), "c1".to_string(), "x".to_string()),
    ];
    let options = history_connection_options(rows);
    assert_eq!(options.len(), 3);
    assert_eq!(options[0].connection_id, "c1");
    assert_eq!(options[0].connection_name, "One");
    assert_eq!(options[0].databases, vec!["app", "logs"]);
    assert_eq!(options[1].connection_name, "Legacy");
    assert_eq!(options[1].databases, vec!["main"]);
    assert_eq!(options[2].connection_id, "");
    assert_eq!(options[2].connection_name, "c1");
}

#[test]
fn every_placeholder_has_one_bound_value() {
    let mut r = request();
    r.connections = vec![conn("c1", "One"), conn("", "Legacy"), conn("", "")];
    r.databases = vec![db("c1", "One", "app"), db("", "Legacy", "logs"), db("", "", "x")];
    r.activity_kind = Some("query".to_string());
    r.success = Some(false);
    r.started_at = Some("2024-01-01".to_string());
    r.ended_at = Some("2024-02-01".to_string());
    r.search_text = " who?% ".to_string();
    let (p, v) = history_search_predicate(&r);
    assert_eq!(p.matches('?').count(), v.len());
    let cursor = Some(HistoryCursor { executed_at: "2024-01-15".to_string(), id: "h1".to_string() });
    let (pp, pv) = history_page_predicate(p, v, &cursor);
    assert_eq!(pp.matches('?').count(), pv.len());
    let (ep, ev) = history_page_predicate(String::new(), Vec::new(), &cursor);
    assert_eq!(ep, " WHERE (executed_at < ? OR (executed_at = ? AND id < ?))");
    assert_eq!(ep.matches('?').count(), ev.len());
}
