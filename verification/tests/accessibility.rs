use chromist::accessibility::{build_tree, RawAxNode};

fn node(id: &str, parent: Option<&str>, kids: &[&str], ignored: bool, role: &str) -> RawAxNode {
    RawAxNode {
        node_id: id.into(),
        parent_id: parent.map(|p| p.into()),
        child_ids: if kids.is_empty() { None } else { Some(kids.iter().map(|k| k.to_string()).collect()) },
        ignored,
        role: Some(role.into()),
        name: None,
        description: None,
        value: None,
    }
}

#[test]
fn tree_skips_ignored_and_unknown_children() {
    let nodes = vec![
        node("2", Some("1"), &[], false, "button"),
        node("1", None, &["2", "3", "99"], false, "document"),
        node("3", Some("1"), &[], true, "generic"),
    ];
    let root = build_tree(&nodes).expect("a root");
    assert_eq!(root.role.as_deref(), Some("document"));
    assert_eq!(root.children.len(), 1);
    assert_eq!(root.children[0].role.as_deref(), Some("button"));
    assert!(root.children[0].children.is_empty());
}

#[test]
fn root_is_the_node_without_a_known_parent() {
    let nodes = vec![
        node("1", Some("outside"), &["2"], false, "document"),
        node("2", Some("1"), &["3"], false, "main"),
        node("3", Some("2"), &[], false, "link"),
    ];
    let root = build_tree(&nodes).expect("a root");
    assert_eq!(root.role.as_deref(), Some("document"));
    assert_eq!(root.children.len(), 1);
    assert_eq!(root.children[0].children[0].role.as_deref(), Some("link"));
}

#[test]
fn empty_list_has_no_tree() {
    assert!(build_tree(&vec![]).is_none());
}
