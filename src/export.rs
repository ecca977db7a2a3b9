use vstd::prelude::*;
use crate::html::{html_document, render_document};
use crate::json::{JsonValue, build_json_tree, json_tree};
use crate::rows::{RawBookmarkRow, build_rows_tree, rows_tree};
use crate::tree::nodes_view;

verus! {

/// The HTML export of a Chrome or Edge bookmark document.
pub fn render_json_export(doc: &JsonValue) -> (r: String)
    ensures
        r@ == html_document("Browser Favoriten"@, json_tree(*doc)),
{
    let tree = build_json_tree(doc);
    render_document("Browser Favoriten", &tree)
}

/// The HTML export of the rows of a Firefox bookmark store.
pub fn render_rows_export(rows: &Vec<RawBookmarkRow>) -> (r: String)
    ensures
        r@ == html_document("Firefox Favoriten"@, rows_tree(rows@)),
{
    let tree = build_rows_tree(rows);
    render_document("Firefox Favoriten", &tree)
}

} // verus!
