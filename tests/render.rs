use bookmark_backup::html::render_document;
use bookmark_backup::tree::BookmarkNode;

fn link(name: &str, url: &str) -> BookmarkNode {
    BookmarkNode::Link { name: name.to_string(), url: url.to_string() }
}

fn folder(name: &str, children: Vec<BookmarkNode>) -> BookmarkNode {
    BookmarkNode::Folder { name: name.to_string(), children }
}

#[test]
fn script_title_and_quoted_url_are_escaped() {
    let roots = vec![folder(
        "",
        vec![link("<script>alert(1)</script>", "http://x/\"onmouseover=\"a&b<>")],
    )];
    let html = render_document("T", &roots);
    assert!(!html.contains("<script>"));
    assert!(html.contains(
        "<a href=\"http://x/&quot;onmouseover=&quot;a&amp;b&lt;&gt;\">&lt;script&gt;alert(1)&lt;/script&gt;</a>"
    ));
}

#[test]
fn folder_names_and_title_are_escaped() {
    let roots = vec![folder("top", vec![folder("a<b & \"c\"", vec![])])];
    let html = render_document("<T>", &roots);
    assert!(html.contains("<title>&lt;T&gt;</title>"));
    assert!(html.contains("<h1>&lt;T&gt;</h1>"));
    // Text content keeps double quotes.
    assert!(html.contains("<div class=\"folder\">a&lt;b &amp; \"c\"</div>\n    <ul>\n    </ul>\n"));
}

#[test]
fn rendering_twice_gives_identical_output() {
    let roots = vec![
        folder("x", vec![link("A", "http://a"), folder("F", vec![link("B", "http://b")])]),
        folder("y", vec![]),
    ];
    let first = render_document("Favoriten", &roots);
    let second = render_document("Favoriten", &roots);
    assert_eq!(first, second);
}

#[test]
fn empty_folder_renders_as_empty_list() {
    let html = render_document("T", &vec![folder("x", vec![])]);
    assert!(html.ends_with("<h1>T</h1>\n<ul>\n</ul>\n</body>\n</html>"));
}

#[test]
fn empty_forest_renders_head_only() {
    let html = render_document("T", &vec![]);
    assert!(html.ends_with("<h1>T</h1>\n</body>\n</html>"));
    assert!(html.contains("<style>\nbody { font-family: Arial, sans-serif; margin: 20px; }\n"));
}

#[test]
fn top_level_link_is_a_list_item() {
    let html = render_document("T", &vec![link("L", "u")]);
    assert!(html.ends_with("<h1>T</h1>\n    <li><a href=\"u\">L</a></li>\n</body>\n</html>"));
}
