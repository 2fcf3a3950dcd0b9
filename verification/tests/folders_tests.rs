use dbx_storage::folders::saved_sql_folder_deletion_order;

fn rows(pairs: &[(&str, Option<&str>)]) -> Vec<(String, Option<String>)> {
    pairs.iter().map(|(id, parent)| (id.to_string(), parent.map(|p| p.to_string()))).collect()
}

#[test]
fn deleting_a_leaf_folder_removes_only_it() {
    let folders = rows(&[("a", None), ("b", None)]);
    assert_eq!(saved_sql_folder_deletion_order("a", &folders), vec!["a".to_string()]);
}

#[test]
fn deleting_a_folder_removes_its_subtree_children_first() {
    let folders = rows(&[
        ("root", None),
        ("c1", Some("root")),
        ("c2", Some("root")),
        ("g1", Some("c1")),
        ("other", None),
        ("o1", Some("other")),
    ]);
    let order = saved_sql_folder_deletion_order("root", &folders);
    assert_eq!(order, vec!["g1".to_string(), "c2".to_string(), "c1".to_string(), "root".to_string()]);
}

#[test]
fn unknown_folder_is_still_deleted_by_id() {
    let folders = rows(&[("x", None)]);
    assert_eq!(saved_sql_folder_deletion_order("missing", &folders), vec!["missing".to_string()]);
}

#[test]
fn cyclic_folder_links_end() {
    let folders = rows(&[("a", Some("b")), ("b", Some("a"))]);
    let order = saved_sql_folder_deletion_order("a", &folders);
    assert_eq!(order, vec!["b".to_string(), "a".to_string()]);
}
