use bookmark_backup::export::render_rows_export;
use bookmark_backup::rows::{build_rows_tree, RawBookmarkRow};
use bookmark_backup::tree::BookmarkNode;

fn row(id: i64, parent: i64, title: Option<&str>, url: Option<&str>, position: Option<i64>) -> RawBookmarkRow {
    RawBookmarkRow {
        id,
        parent,
        title: title.map(|t| t.to_string()),
        url: url.map(|u| u.to_string()),
        position,
    }
}

fn names(nodes: &[BookmarkNode]) -> Vec<String> {
    nodes
        .iter()
        .map(|n| match n {
            BookmarkNode::Folder { name, .. } => name.clone(),
            BookmarkNode::Link { name, .. } => name.clone(),
        })
        .collect()
}

fn children(n: &BookmarkNode) -> &Vec<BookmarkNode> {
    match n {
        BookmarkNode::Folder { children, .. } => children,
        BookmarkNode::Link { .. } => panic!("expected a folder"),
    }
}

fn flatten(nodes: &[BookmarkNode], out: &mut Vec<String>) {
    for n in nodes {
        match n {
            BookmarkNode::Folder { name, children } => {
                out.push(name.clone());
                flatten(children, out);
            }
            BookmarkNode::Link { name, .. } => out.push(name.clone()),
        }
    }
}

#[test]
fn five_root_folders_always() {
    let tree = build_rows_tree(&vec![]);
    assert_eq!(tree.len(), 5);
    for n in &tree {
        assert!(children(n).is_empty());
        assert_eq!(names(std::slice::from_ref(n)), vec![String::new()]);
    }
}

#[test]
fn siblings_follow_position_at_every_level() {
    // Rows given out of order; the builder orders each level by position.
    let rows = vec![
        row(12, 3, Some("c"), Some("http://c"), Some(2)),
        row(10, 3, Some("Ordner"), None, Some(0)),
        row(11, 3, Some("b"), Some("http://b"), Some(1)),
        row(21, 10, Some("y"), Some("http://y"), Some(5)),
        row(20, 10, Some("x"), Some("http://x"), Some(4)),
    ];
    let tree = build_rows_tree(&rows);
    let toolbar = children(&tree[2]);
    assert_eq!(names(toolbar), vec!["Ordner", "b", "c"]);
    assert_eq!(names(children(&toolbar[0])), vec!["x", "y"]);
    let mut flat = Vec::new();
    flatten(&tree, &mut flat);
    let flat: Vec<String> = flat.into_iter().filter(|n| !n.is_empty()).collect();
    assert_eq!(flat, vec!["Ordner", "x", "y", "b", "c"]);
}

#[test]
fn equal_positions_keep_row_order() {
    let rows = vec![
        row(30, 5, Some("second"), Some("http://2"), Some(1)),
        row(31, 5, Some("first"), Some("http://1"), Some(0)),
        row(32, 5, Some("third"), Some("http://3"), Some(1)),
    ];
    let tree = build_rows_tree(&rows);
    assert_eq!(names(children(&tree[4])), vec!["first", "second", "third"]);
}

#[test]
fn malformed_rows_are_skipped() {
    let rows = vec![
        // neither title nor position
        row(40, 2, None, Some("http://gone"), None),
        // a title is enough; a missing position sorts first
        row(41, 2, Some("kept"), Some("http://kept"), None),
        // a position without a title is kept with an empty name
        row(42, 2, None, Some("http://untitled"), Some(3)),
        // a folder that is its own parent is left out below itself
        row(43, 43, Some("loop"), None, Some(0)),
        row(44, 2, Some("Sub"), None, Some(1)),
        row(44, 44, Some("again"), None, Some(0)),
    ];
    let tree = build_rows_tree(&rows);
    let menu = children(&tree[1]);
    assert_eq!(names(menu), vec!["kept", "Sub", ""]);
    assert!(children(&menu[1]).is_empty());
}

#[test]
fn parent_cycle_through_roots_is_skipped() {
    let rows = vec![
        row(2, 1, Some("menu"), None, Some(0)),
        row(1, 2, Some("root"), None, Some(0)),
        row(7, 2, Some("below"), Some("http://below"), Some(1)),
    ];
    let tree = build_rows_tree(&rows);
    // Rows 2 and 1 parent each other: both are left out. Row 7 is not on
    // the cycle and stays under root 2.
    assert!(children(&tree[0]).is_empty());
    assert_eq!(names(children(&tree[1])), vec!["below"]);
    for n in &tree[2..] {
        assert!(children(n).is_empty());
    }
}

#[test]
fn two_rows_parenting_each_other_are_skipped() {
    let rows = vec![
        row(2, 3, Some("two"), None, Some(0)),
        row(3, 2, Some("three"), None, Some(0)),
        row(9, 3, Some("ok"), Some("http://ok"), Some(1)),
    ];
    let tree = build_rows_tree(&rows);
    assert!(children(&tree[1]).is_empty());
    assert_eq!(names(children(&tree[2])), vec!["ok"]);
}

#[test]
fn self_parented_row_is_skipped() {
    let rows = vec![row(4, 4, Some("self"), None, Some(0)), row(8, 4, Some("x"), Some("http://x"), Some(1))];
    let tree = build_rows_tree(&rows);
    assert_eq!(names(children(&tree[3])), vec!["x"]);
}

#[test]
fn rows_export_renders_links_with_url_and_title() {
    let rows = vec![row(10, 3, Some("Rust & Co"), Some("https://rust-lang.org/?a=1&b=2"), Some(0))];
    let html = render_rows_export(&rows);
    assert!(html.contains("<title>Firefox Favoriten</title>"));
    assert!(html.contains("    <li><a href=\"https://rust-lang.org/?a=1&amp;b=2\">Rust &amp; Co</a></li>\n"));
    assert_eq!(html.matches("<ul>\n</ul>\n").count(), 4);
}
