use dbx_storage::ai_conversations::ai_conversation_connection_backfill;
use dbx_storage::json::{JsonNumber, JsonValue};
use dbx_storage::templates::{
    is_duplicate_template_name, prepare_prompt_template, template_delete_outcome, validate_prompt_template,
};

fn connection_config(id: &str, name: &str) -> JsonValue {
    JsonValue::Object(vec![
        ("id".to_string(), JsonValue::Text(id.to_string())),
        ("name".to_string(), JsonValue::Text(name.to_string())),
        ("db_type".to_string(), JsonValue::Text("mysql".to_string())),
        ("port".to_string(), JsonValue::Number(JsonNumber::PosInt(3306))),
        ("database".to_string(), JsonValue::Null),
    ])
}

fn pairs(items: &[(&str, &str)]) -> Vec<(String, String)> {
    items.iter().map(|(a, b)| (a.to_string(), b.to_string())).collect()
}

#[test]
fn ai_conversation_upgrades_legacy_schema_and_binds_a_unique_connection() {
    let connections = vec![("c-prod".to_string(), connection_config("c-prod", "Prod MySQL"))];
    let unbound = pairs(&[("prod", "Prod MySQL"), ("orphan", "Deleted Conn")]);
    let bindings = ai_conversation_connection_backfill(&connections, &unbound);
    assert_eq!(bindings, pairs(&[("prod", "c-prod")]));
    assert!(!bindings.iter().any(|(conversation, _)| conversation == "orphan"));
}

#[test]
fn ai_conversation_backfill_skips_ambiguous_connection_names() {
    let connections = vec![
        ("c1".to_string(), connection_config("c1", "Shared Name")),
        ("c2".to_string(), connection_config("c2", "Shared Name")),
    ];
    let unbound = pairs(&[("dup", "Shared Name"), ("nameless", "")]);
    assert!(ai_conversation_connection_backfill(&connections, &unbound).is_empty());
}

#[test]
fn backfill_matches_trimmed_names_and_ignores_unreadable_configs() {
    let connections = vec![
        ("c1".to_string(), connection_config("c1", "  Analytics ")),
        ("broken".to_string(), JsonValue::Null),
        ("blank".to_string(), connection_config("blank", "   ")),
    ];
    let unbound = pairs(&[("a", "Analytics  "), ("b", " "), ("c", "analytics")]);
    assert_eq!(ai_conversation_connection_backfill(&connections, &unbound), pairs(&[("a", "c1")]));
}

#[test]
fn prompt_template_save_rejects_duplicate_name_case_insensitive() {
    assert_eq!(prepare_prompt_template("Production Rules", "content 1", &[]), Ok("Production Rules".to_string()));
    let err = prepare_prompt_template("production rules", "content 2", &["Production Rules".to_string()]).unwrap_err();
    assert!(err.contains("duplicate"), "expected 'duplicate', got: {err}");
    let update = prepare_prompt_template("Production Rules", "updated", &[]).unwrap();
    assert_eq!(update, "Production Rules");
}

#[test]
fn prompt_template_save_rejects_duplicate_name_unicode_case_folding() {
    let err = prepare_prompt_template("ä规则", "content-lower", &["Ä规则".to_string()]).unwrap_err();
    assert!(err.contains("duplicate"), "expected 'duplicate', got: {err}");
    let err = prepare_prompt_template("Ä规则", "content-upper", &["ä规则".to_string()]).unwrap_err();
    assert!(err.contains("duplicate"), "expected 'duplicate', got: {err}");
}

#[test]
fn template_validation_errors() {
    assert_eq!(validate_prompt_template("   ", "x"), Err("template name cannot be empty".to_string()));
    assert_eq!(validate_prompt_template(&"n".repeat(51), "x"), Err("template name too long (max 50 chars)".to_string()));
    assert_eq!(validate_prompt_template(&"é".repeat(50), "x"), Ok("é".repeat(50)));
    assert_eq!(
        validate_prompt_template("ok", &"c".repeat(8001)),
        Err("template content too long (max 8000 chars)".to_string())
    );
    assert_eq!(validate_prompt_template("  padded name ", "c"), Ok("padded name".to_string()));
    assert_eq!(prepare_prompt_template(" ", "c", &["".to_string()]), Err("template name cannot be empty".to_string()));
}

#[test]
fn duplicate_name_check_uses_unicode_lowercase() {
    assert!(is_duplicate_template_name("ABC", &["abc".to_string()]));
    assert!(!is_duplicate_template_name("ABC", &["abd".to_string(), "ab".to_string()]));
    assert!(is_duplicate_template_name("ΣΊΣΥΦΟΣ", &["σίσυφος".to_string()]) == ("ΣΊΣΥΦΟΣ".to_lowercase() == "σίσυφος"));
}

#[test]
fn deleting_a_missing_template_is_an_error() {
    assert_eq!(template_delete_outcome(0), Err("template not found".to_string()));
    assert_eq!(template_delete_outcome(1), Ok(()));
}

#[test]
fn second_backfill_run_binds_nothing_more() {
    let connections = vec![
        ("c1".to_string(), connection_config("c1", "A")),
        ("c2".to_string(), connection_config("c2", "B")),
        ("c3".to_string(), connection_config("c3", "B")),
    ];
    let unbound = pairs(&[("x", "A"), ("y", "B"), ("z", "C")]);
    let first = ai_conversation_connection_backfill(&connections, &unbound);
    assert_eq!(first, pairs(&[("x", "c1")]));
    let left: Vec<(String, String)> =
        unbound.into_iter().filter(|(id, _)| !first.iter().any(|(bound, _)| bound == id)).collect();
    assert!(ai_conversation_connection_backfill(&connections, &left).is_empty());
}
