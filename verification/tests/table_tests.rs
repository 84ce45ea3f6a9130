use std::collections::HashMap;

use iconic_statusbar::classify::WindowCategory;
use iconic_statusbar::engine::{handle_event, EngineAction, EngineEvent, WindowChangeKind};
use iconic_statusbar::table::{build_table, collect_workspace_windows};
use iconic_statusbar::tree_util::{LayoutNode, NodeKind};

fn node(
    nodetype: NodeKind,
    name: Option<&str>,
    window: Option<u32>,
    nodes: Vec<LayoutNode>,
) -> LayoutNode {
    LayoutNode {
        nodetype,
        name: name.map(|s| s.to_owned()),
        window,
        nodes,
    }
}

fn workspace(name: &str, nodes: Vec<LayoutNode>) -> LayoutNode {
    node(NodeKind::Workspace, Some(name), None, nodes)
}

fn window(handle: u32) -> LayoutNode {
    node(NodeKind::Container, None, Some(handle), vec![])
}

fn firefox_bytes() -> Vec<u8> {
    "WM_CLASS = \"Navigator\", \"firefox\"".as_bytes().to_owned()
}

fn spotify_bytes() -> Vec<u8> {
    "WM_CLASS = \"spotify\", \"spotify-client\"".as_bytes().to_owned()
}

#[test]
fn numeric_workspaces_tracked_and_named_excluded() {
    let root = node(
        NodeKind::Other,
        Some("root"),
        None,
        vec![
            workspace("3", vec![window(10)]),
            workspace("main", vec![window(11)]),
        ],
    );
    let rows = collect_workspace_windows(&root);
    assert_eq!(rows, vec![(3, vec![10])]);
}

#[test]
fn handleless_containers_are_skipped() {
    let root = node(
        NodeKind::Other,
        None,
        None,
        vec![workspace(
            "1",
            vec![node(
                NodeKind::Container,
                None,
                None,
                vec![window(5), window(6)],
            )],
        )],
    );
    let rows = collect_workspace_windows(&root);
    assert_eq!(rows, vec![(1, vec![5, 6])]);
}

#[test]
fn unresolved_windows_contribute_nothing() {
    let raw = vec![(4, vec![None, Some(firefox_bytes()), Some(b"garbage".to_vec())])];
    let table = build_table(raw);
    let mut expected = HashMap::new();
    expected.insert(4, vec![WindowCategory::Firefox]);
    assert_eq!(table, expected);
}

#[test]
fn rebuild_twice_yields_equal_tables() {
    let root = node(
        NodeKind::Other,
        None,
        None,
        vec![
            workspace("1", vec![window(7)]),
            workspace("2", vec![window(8), window(9)]),
        ],
    );
    let rows1 = collect_workspace_windows(&root);
    let rows2 = collect_workspace_windows(&root);
    assert_eq!(rows1, rows2);

    let raw = |rows: Vec<(i32, Vec<u32>)>| -> Vec<(i32, Vec<Option<Vec<u8>>>)> {
        rows.into_iter()
            .map(|(id, handles)| {
                let outcomes = handles
                    .into_iter()
                    .map(|h| {
                        if h == 7 {
                            Some(firefox_bytes())
                        } else if h == 8 {
                            Some(spotify_bytes())
                        } else {
                            None
                        }
                    })
                    .collect();
                (id, outcomes)
            })
            .collect()
    };
    let t1 = build_table(raw(rows1));
    let t2 = build_table(raw(rows2));
    assert_eq!(t1, t2);

    let mut expected = HashMap::new();
    expected.insert(1, vec![WindowCategory::Firefox]);
    expected.insert(2, vec![WindowCategory::Spotify]);
    assert_eq!(t1, expected);
}

#[test]
fn initial_table_then_window_new_rebuild() {
    let root = node(
        NodeKind::Other,
        None,
        None,
        vec![workspace("1", vec![window(7)])],
    );
    let rows = collect_workspace_windows(&root);
    assert_eq!(rows, vec![(1, vec![7])]);
    let table = build_table(vec![(1, vec![Some(firefox_bytes())])]);
    let mut expected = HashMap::new();
    expected.insert(1, vec![WindowCategory::Firefox]);
    assert_eq!(table, expected);

    assert_eq!(
        handle_event(&EngineEvent::WindowLifecycle(WindowChangeKind::New)),
        EngineAction::Rebuild
    );

    let grown = node(
        NodeKind::Other,
        None,
        None,
        vec![workspace("1", vec![window(7), window(12)])],
    );
    let rows = collect_workspace_windows(&grown);
    assert_eq!(rows, vec![(1, vec![7, 12])]);
    let table = build_table(vec![(
        1,
        vec![Some(firefox_bytes()), Some(spotify_bytes())],
    )]);
    let mut expected = HashMap::new();
    expected.insert(1, vec![WindowCategory::Firefox, WindowCategory::Spotify]);
    assert_eq!(table, expected);
}

#[test]
fn duplicate_workspace_ids_keep_the_later_row() {
    let raw = vec![
        (5, vec![Some(firefox_bytes())]),
        (5, vec![Some(spotify_bytes())]),
    ];
    let table = build_table(raw);
    let mut expected = HashMap::new();
    expected.insert(5, vec![WindowCategory::Spotify]);
    assert_eq!(table, expected);
}
