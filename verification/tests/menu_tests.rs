use rui::commands::CommandInfo;
use rui::commands::split_segments;
use rui::menu::CommandMap;
use rui::menu::MenuOp;
use rui::menu::build_menu_tree;
use rui::menu::build_menubar;

fn command(path: &str, key: Option<u32>) -> CommandInfo {
    CommandInfo { path: path.to_string(), key }
}

#[test]
fn split_simple_path() {
    let segs = split_segments("File:New");
    assert_eq!(segs.len(), 2);
    assert_eq!(segs[0], "File");
    assert_eq!(segs[1], "New");
}

#[test]
fn split_empty_path_is_one_empty_segment() {
    let segs = split_segments("");
    assert_eq!(segs.len(), 1);
    assert_eq!(segs[0], "");
}

#[test]
fn split_trailing_delimiter_keeps_empty_segment() {
    let segs = split_segments("a:");
    assert_eq!(segs.len(), 2);
    assert_eq!(segs[0], "a");
    assert_eq!(segs[1], "");
}

#[test]
fn split_consecutive_delimiters() {
    let segs = split_segments("A::B");
    assert_eq!(segs.len(), 3);
    assert_eq!(segs[0], "A");
    assert_eq!(segs[1], "");
    assert_eq!(segs[2], "B");
}

#[test]
fn empty_command_list_only_app_submenu() {
    let commands: Vec<CommandInfo> = Vec::new();
    let mut map = CommandMap::new();
    let menu = build_menubar(&commands, &mut map);
    assert_eq!(map.len(), 0);
    assert_eq!(menu.ops.len(), 4);
    assert!(matches!(&menu.ops[0], MenuOp::BeginSubmenu { name } if name == "rui"));
    assert!(matches!(menu.ops[1], MenuOp::About));
    assert!(matches!(menu.ops[2], MenuOp::Quit));
    assert!(matches!(menu.ops[3], MenuOp::EndSubmenu));
}

#[test]
fn shared_prefix_shares_submenu() {
    let commands = vec![command("File:New", None), command("File:Open", None)];
    let mut map = CommandMap::new();
    let menu = build_menubar(&commands, &mut map);
    // One File submenu containing the two leaves, after the app submenu.
    assert_eq!(menu.ops.len(), 8);
    assert!(matches!(&menu.ops[4], MenuOp::BeginSubmenu { name } if name == "File"));
    assert!(matches!(&menu.ops[5], MenuOp::Item { name, .. } if name == "New"));
    assert!(matches!(&menu.ops[6], MenuOp::Item { name, .. } if name == "Open"));
    assert!(matches!(menu.ops[7], MenuOp::EndSubmenu));
    assert_eq!(map.len(), 2);
}

#[test]
fn command_map_holds_original_paths() {
    let commands = vec![command("File:New", None), command("File:Open", None)];
    let mut map = CommandMap::new();
    let _menu = build_menubar(&commands, &mut map);
    let mut ids = Vec::new();
    for op in &_menu.ops {
        if let MenuOp::Item { id, .. } = op {
            ids.push(*id);
        }
    }
    assert_eq!(ids.len(), 2);
    assert_eq!(map.get(ids[0]).unwrap(), "File:New");
    assert_eq!(map.get(ids[1]).unwrap(), "File:Open");
}

#[test]
fn absent_identity_not_in_map() {
    let commands = vec![command("File:New", None)];
    let mut map = CommandMap::new();
    let _menu = build_menubar(&commands, &mut map);
    assert!(map.get(9999).is_none());
}

#[test]
fn duplicate_paths_collapse_to_one_leaf() {
    let commands = vec![command("File:New", None), command("File:New", None)];
    let mut map = CommandMap::new();
    let menu = build_menubar(&commands, &mut map);
    let items = menu
        .ops
        .iter()
        .filter(|op| matches!(op, MenuOp::Item { .. }))
        .count();
    assert_eq!(items, 1);
    assert_eq!(map.len(), 1);
}

#[test]
fn leaf_extended_to_submenu_keeps_only_deep_leaf() {
    // "File" is first a leaf, then gains a child; only the deep leaf remains
    // invocable and the map holds its original full path.
    let commands = vec![command("File", None), command("File:New", None)];
    let mut map = CommandMap::new();
    let menu = build_menubar(&commands, &mut map);
    assert!(matches!(&menu.ops[4], MenuOp::BeginSubmenu { name } if name == "File"));
    assert!(matches!(&menu.ops[5], MenuOp::Item { name, .. } if name == "New"));
    assert_eq!(map.len(), 1);
    let id = match &menu.ops[5] {
        MenuOp::Item { id, .. } => *id,
        _ => unreachable!(),
    };
    assert_eq!(map.get(id).unwrap(), "File:New");
}

#[test]
fn accelerator_key_reaches_item() {
    let commands = vec![command("File:Save", Some(31))];
    let mut map = CommandMap::new();
    let menu = build_menubar(&commands, &mut map);
    assert!(matches!(&menu.ops[5], MenuOp::Item { key: Some(31), .. }));
}

#[test]
fn arena_shares_prefix_nodes() {
    let commands = vec![command("Edit:Copy", None), command("Edit:Paste", None)];
    let nodes = build_menu_tree(&commands);
    // Root, one Edit node, two leaves.
    assert_eq!(nodes.len(), 4);
    assert_eq!(nodes[1].name, "Edit");
    assert_eq!(nodes[1].children.len(), 2);
    assert_eq!(nodes[2].name, "Copy");
    assert_eq!(nodes[3].name, "Paste");
    assert_eq!(nodes[2].command.path, "Edit:Copy");
    assert_eq!(nodes[3].command.path, "Edit:Paste");
}

#[test]
fn empty_path_becomes_empty_named_leaf() {
    // A malformed (empty) path is not rejected: it creates a leaf with an
    // empty segment name, and the map still holds the original (empty) path.
    let commands = vec![command("", None)];
    let mut map = CommandMap::new();
    let menu = build_menubar(&commands, &mut map);
    assert!(matches!(&menu.ops[4], MenuOp::Item { name, .. } if name.is_empty()));
    assert_eq!(map.len(), 1);
    let id = match &menu.ops[4] {
        MenuOp::Item { id, .. } => *id,
        _ => unreachable!(),
    };
    assert_eq!(map.get(id).unwrap(), "");
}

#[test]
fn insertion_order_decides_tree_shape() {
    // A later command reuses an earlier node only on an exact name match at
    // the same depth, scanned first match wins.
    let commands = vec![
        command("View:Zoom", None),
        command("View:Pan", None),
        command("Help", None),
    ];
    let nodes = build_menu_tree(&commands);
    assert_eq!(nodes.len(), 5);
    assert_eq!(nodes[0].children.len(), 2);
    assert_eq!(nodes[nodes[0].children[0]].name, "View");
    assert_eq!(nodes[nodes[0].children[1]].name, "Help");
}
