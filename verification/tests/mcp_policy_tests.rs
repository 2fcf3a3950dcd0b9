use dbx_storage::mcp_policy::{
    intersect_mcp_database_scopes, merge_mcp_database_policies, normalize_mcp_database_policies, normalize_mcp_ids,
    McpConnectionPolicy, McpDatabasePolicy, McpDatabaseScope, McpGlobalPolicy, McpGlobalPolicyState, McpGroupPolicy, policy_state_from_load,
};

fn s(v: &[&str]) -> Vec<String> {
    v.iter().map(|x| x.to_string()).collect()
}

fn db(name: &str, read_only: bool, allow_dangerous_sql: bool) -> McpDatabasePolicy {
    McpDatabasePolicy { database_name: name.to_string(), read_only, allow_dangerous_sql }
}

fn rule(id: &str, read_only: bool, danger: bool, scope: McpDatabaseScope, dbs: &[&str]) -> McpConnectionPolicy {
    McpConnectionPolicy {
        connection_id: id.to_string(),
        read_only,
        allow_dangerous_sql: danger,
        execution_mode_configured: true,
        execution_mode_policy_version: Some(1),
        database_scope: scope,
        allowed_databases: s(dbs),
        database_policies: Vec::new(),
        allow_salesforce_dml: true,
    }
}

fn policy() -> McpGlobalPolicy {
    let mut first = rule("c1", false, true, McpDatabaseScope::Selected, &["x", "y", " x ", "z"]);
    first.database_policies = vec![db("x", false, true), db("z", false, true)];
    let second = rule(" c1 ", false, false, McpDatabaseScope::Selected, &["y", "x"]);
    let mut ro = rule("c0", true, true, McpDatabaseScope::All, &["ignored"]);
    ro.database_policies = vec![db("ignored", false, false)];
    McpGlobalPolicy {
        read_only: true,
        allow_dangerous_sql: true,
        allowed_connection_ids: Some(s(&[" b ", "a", "", "b"])),
        allowed_group_ids: s(&["g2", "g1", "g2"]),
        allowed_tool_names: Some(s(&["t", " t"])),
        connection_policies: vec![first, second, ro, rule("  ", false, true, McpDatabaseScope::All, &[])],
        group_policies: vec![
            McpGroupPolicy { group_id: "g".to_string(), read_only: true, allow_dangerous_sql: true },
            McpGroupPolicy { group_id: " g".to_string(), read_only: false, allow_dangerous_sql: true },
        ],
        query_timeout_secs: Some(30),
    }
}

#[test]
fn normalized_policy_fails_closed() {
    let n = policy().normalized();
    assert!(n.read_only);
    assert!(!n.allow_dangerous_sql);
    assert_eq!(n.allowed_connection_ids, Some(s(&["a", "b"])));
    assert_eq!(n.allowed_group_ids, s(&["g1", "g2"]));
    assert_eq!(n.allowed_tool_names, Some(s(&["t"])));
    assert_eq!(n.connection_policies.len(), 2);
    let c0 = &n.connection_policies[0];
    assert_eq!(c0.connection_id, "c0");
    assert!(c0.read_only && !c0.allow_dangerous_sql && !c0.allow_salesforce_dml);
    assert!(c0.allowed_databases.is_empty() && c0.database_policies.is_empty());
    let c1 = &n.connection_policies[1];
    assert_eq!(c1.connection_id, "c1");
    assert!(!c1.read_only && !c1.allow_dangerous_sql && c1.allow_salesforce_dml);
    assert_eq!(c1.execution_mode_policy_version, Some(1));
    assert_eq!(c1.database_scope, McpDatabaseScope::Selected);
    assert_eq!(c1.allowed_databases, s(&["x", "y"]));
    assert_eq!(c1.database_policies, vec![db("x", false, true)]);
    assert_eq!(
        n.group_policies,
        vec![McpGroupPolicy { group_id: "g".to_string(), read_only: true, allow_dangerous_sql: false }]
    );
    assert_eq!(n.query_timeout_secs, Some(30));
}

#[test]
fn normalizing_twice_changes_nothing() {
    let once = policy().normalized();
    assert_eq!(once.normalized(), once);
}

#[test]
fn group_ids_are_dropped_without_a_connection_scope() {
    let mut p = policy();
    p.allowed_connection_ids = None;
    assert!(p.normalized().allowed_group_ids.is_empty());
}

#[test]
fn scopes_intersect() {
    let (scope, dbs) =
        intersect_mcp_database_scopes(McpDatabaseScope::Selected, &s(&["a", "b"]), McpDatabaseScope::Selected, &s(&["b", "c"]));
    assert_eq!(scope, McpDatabaseScope::Selected);
    assert_eq!(dbs, s(&["b"]));
    let (scope, dbs) = intersect_mcp_database_scopes(McpDatabaseScope::All, &[], McpDatabaseScope::NoDatabases, &[]);
    assert_eq!(scope, McpDatabaseScope::NoDatabases);
    assert!(dbs.is_empty());
    let (scope, dbs) = intersect_mcp_database_scopes(McpDatabaseScope::All, &[], McpDatabaseScope::Selected, &s(&[" q "]));
    assert_eq!(scope, McpDatabaseScope::Selected);
    assert_eq!(dbs, s(&["q"]));
}

#[test]
fn database_policies_combine_strictly() {
    let merged = merge_mcp_database_policies(&[db("a", false, true)], &[db(" a", false, false), db("b", true, true)]);
    assert_eq!(merged, vec![db("a", false, false), db("b", true, false)]);
    assert_eq!(normalize_mcp_database_policies(&[db(" ", true, true)]), Vec::<McpDatabasePolicy>::new());
    assert_eq!(normalize_mcp_ids(&s(&["b", " a ", "b", ""])), s(&["a", "b"]));
}

#[test]
fn policy_state_reports_configuration() {
    let unconfigured = McpGlobalPolicyState::from_stored(None);
    assert!(!unconfigured.configured);
    assert!(unconfigured.allowed_connection_ids.is_none());
    let configured = McpGlobalPolicyState::from_stored(Some(policy()));
    assert!(configured.configured);
    assert_eq!(configured.policy(), policy().normalized());
    let reloaded = McpGlobalPolicyState::from_stored(Some(policy().normalized()));
    assert!(reloaded.configured);
    assert_eq!(reloaded.policy(), policy().normalized());
}

#[test]
fn policy_load_fails_closed() {
    let err = policy_state_from_load(Err("invalid MCP policy: expected a boolean".to_string()));
    match err {
        Err(e) => {
            assert!(e.starts_with("MCP_POLICY_UNAVAILABLE:"));
            assert_eq!(e, "MCP_POLICY_UNAVAILABLE: invalid MCP policy: expected a boolean");
        }
        Ok(_) => panic!("an unreadable policy must not load"),
    }
    let missing = policy_state_from_load(Ok(None)).unwrap();
    assert!(!missing.configured);
    assert!(!missing.read_only);
    let stored = policy_state_from_load(Ok(Some(policy()))).unwrap();
    assert!(stored.configured);
    assert_eq!(stored.policy(), policy().normalized());
}

#[test]
fn normalization_ignores_the_order_of_lists() {
    let p = policy();
    let mut q = policy();
    q.connection_policies.reverse();
    for r in q.connection_policies.iter_mut() {
        r.allowed_databases.reverse();
        r.database_policies.reverse();
    }
    q.group_policies.reverse();
    q.allowed_group_ids.reverse();
    if let Some(ids) = q.allowed_connection_ids.as_mut() {
        ids.reverse();
    }
    if let Some(tools) = q.allowed_tool_names.as_mut() {
        tools.reverse();
    }
    assert_eq!(q.normalized(), p.normalized());
}
