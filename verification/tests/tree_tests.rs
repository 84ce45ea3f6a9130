use iconic_statusbar::tree_util::{filter_childs_by_type, LayoutNode, NodeKind};

fn node(
    nodetype: NodeKind,
    name: Option<&str>,
    window: Option<u32>,
    nodes: Vec<LayoutNode>,
) -> LayoutNode {
    LayoutNode {
        nodetype,
        name: name.map(|s| s.to_owned()),
        window,
        nodes,
    }
}

#[test]
fn filter_matching_root_alone() {
    let root = node(NodeKind::Workspace, Some("1"), None, vec![]);
    let found = filter_childs_by_type(&root, NodeKind::Workspace);
    assert_eq!(found.len(), 1);
    assert_eq!(found[0], &root);
}

#[test]
fn filter_empty_tree_without_match() {
    let root = node(NodeKind::Other, None, None, vec![]);
    let found = filter_childs_by_type(&root, NodeKind::Workspace);
    assert!(found.is_empty());
}

#[test]
fn filter_finds_nested_matches_exactly_once() {
    let deep = node(
        NodeKind::Container,
        None,
        Some(42),
        vec![node(NodeKind::Container, None, Some(43), vec![])],
    );
    let ws_a = node(NodeKind::Workspace, Some("1"), None, vec![deep]);
    let ws_b = node(
        NodeKind::Workspace,
        Some("2"),
        None,
        vec![node(NodeKind::Other, None, None, vec![])],
    );
    let root = node(NodeKind::Other, Some("root"), None, vec![ws_a, ws_b]);

    let workspaces = filter_childs_by_type(&root, NodeKind::Workspace);
    assert_eq!(workspaces.len(), 2);
    assert_eq!(workspaces[0].name, Some("1".to_owned()));
    assert_eq!(workspaces[1].name, Some("2".to_owned()));

    let containers = filter_childs_by_type(&root, NodeKind::Container);
    assert_eq!(containers.len(), 2);
    assert_eq!(containers[0].window, Some(42));
    assert_eq!(containers[1].window, Some(43));
}

#[test]
fn filter_no_matches_in_populated_tree() {
    let root = node(
        NodeKind::Other,
        None,
        None,
        vec![node(NodeKind::Other, None, None, vec![])],
    );
    assert!(filter_childs_by_type(&root, NodeKind::Container).is_empty());
}
