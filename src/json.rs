use vstd::prelude::*;
use crate::text::str_eq;
use crate::tree::{
    BookmarkNode, NodeModel, node_view, nodes_view, lemma_nodes_view_push, node_count, forest_count,
};

verus! {

/// A JSON value, as far as a bookmark document needs it: object members keep
/// their order.
pub enum JsonValue {
    Null,
    Bool(bool),
    Number(String),
    Str(String),
    Array(Vec<JsonValue>),
    Object(Vec<(String, JsonValue)>),
}

/// Index of the first member named `key` at or after `i`, or -1.
pub open spec fn key_index(e: Seq<(String, JsonValue)>, key: Seq<char>, i: int) -> int
    decreases e.len() - i,
{
    if i < 0 || i >= e.len() {
        -1
    } else if e[i].0@ == key {
        i
    } else {
        key_index(e, key, i + 1)
    }
}

/// The value of the first member named `key`.
pub open spec fn member(e: Seq<(String, JsonValue)>, key: Seq<char>) -> Option<JsonValue> {
    let k = key_index(e, key, 0);
    if 0 <= k < e.len() {
        Some(e[k].1)
    } else {
        None
    }
}

/// The text of the first member named `key`, if that member is a string.
pub open spec fn str_member(e: Seq<(String, JsonValue)>, key: Seq<char>) -> Option<Seq<char>> {
    match member(e, key) {
        Some(JsonValue::Str(s)) => Some(s@),
        _ => None,
    }
}

pub open spec fn text_or_empty(t: Option<Seq<char>>) -> Seq<char> {
    match t {
        Some(s) => s,
        None => Seq::empty(),
    }
}

/// The node that a JSON value stands for: an object whose `type` is `folder`
/// or `url`; any other value stands for nothing. Missing names and urls are
/// empty.
pub open spec fn json_node(v: JsonValue) -> Option<NodeModel>
    decreases v, 0int,
{
    match v {
        JsonValue::Object(e) => {
            let t = str_member(e@, "type"@);
            if t == Some("folder"@) {
                Some(
                    NodeModel::Folder {
                        name: text_or_empty(str_member(e@, "name"@)),
                        children: children_from(e@, 0),
                    },
                )
            } else if t == Some("url"@) {
                Some(
                    NodeModel::Link {
                        name: text_or_empty(str_member(e@, "name"@)),
                        url: text_or_empty(str_member(e@, "url"@)),
                    },
                )
            } else {
                None
            }
        },
        _ => None,
    }
}

/// The nodes that a JSON array stands for, in order, without the values that
/// stand for nothing.
pub open spec fn json_nodes(s: Seq<JsonValue>) -> Seq<NodeModel>
    decreases s, 0int,
{
    if s.len() == 0 {
        Seq::empty()
    } else {
        let rest = json_nodes(s.drop_last());
        match json_node(s.last()) {
            Some(n) => rest.push(n),
            None => rest,
        }
    }
}

/// The children of an object: the nodes of its first `children` member at or
/// after `i`, when that member is an array.
pub open spec fn children_from(e: Seq<(String, JsonValue)>, i: int) -> Seq<NodeModel>
    decreases e, e.len() - i,
{
    if i < 0 || i >= e.len() {
        Seq::empty()
    } else if e[i].0@ == "children"@ {
        match e[i].1 {
            JsonValue::Array(a) => json_nodes(a@),
            _ => Seq::empty(),
        }
    } else {
        children_from(e, i + 1)
    }
}

/// The top-level folder that a member of `roots` stands for.
pub open spec fn root_folder(v: JsonValue) -> NodeModel {
    match v {
        JsonValue::Object(e) => NodeModel::Folder {
            name: text_or_empty(str_member(e@, "name"@)),
            children: children_from(e@, 0),
        },
        _ => NodeModel::Folder { name: Seq::empty(), children: Seq::empty() },
    }
}

/// One top-level folder per member of `roots`, in member order.
pub open spec fn root_folders(e: Seq<(String, JsonValue)>) -> Seq<NodeModel>
    decreases e.len(),
{
    if e.len() == 0 {
        Seq::empty()
    } else {
        root_folders(e.drop_last()).push(root_folder(e.last().1))
    }
}

/// The forest that a bookmark document stands for: its `roots` object, one
/// folder per member.
pub open spec fn json_tree(doc: JsonValue) -> Seq<NodeModel> {
    match doc {
        JsonValue::Object(e) => match member(e@, "roots"@) {
            Some(JsonValue::Object(r)) => root_folders(r@),
            _ => Seq::empty(),
        },
        _ => Seq::empty(),
    }
}

/// Position of the first member named `key`.
pub fn find_key(e: &Vec<(String, JsonValue)>, key: &str) -> (r: Option<usize>)
    ensures
        match r {
            Some(k) => k < e@.len() && key_index(e@, key@, 0) == k as int,
            None => key_index(e@, key@, 0) == -1,
        },
{
    let mut i: usize = 0;
    while i < e.len()
        invariant
            i <= e@.len(),
            key_index(e@, key@, 0) == key_index(e@, key@, i as int),
        decreases e.len() - i,
    {
        if str_eq(e[i].0.as_str(), key) {
            return Some(i);
        }
        i = i + 1;
    }
    None
}

/// The text of the first member named `key` when it is a string, else empty.
fn text_member(e: &Vec<(String, JsonValue)>, key: &str) -> (r: String)
    ensures
        r@ == text_or_empty(str_member(e@, key@)),
{
    match find_key(e, key) {
        Some(k) => match &e[k].1 {
            JsonValue::Str(s) => s.clone(),
            _ => String::new(),
        },
        None => String::new(),
    }
}

/// Whether the first member named `key` is the string `want`.
fn member_is(e: &Vec<(String, JsonValue)>, key: &str, want: &str) -> (r: bool)
    ensures
        r == (str_member(e@, key@) == Some(want@)),
{
    match find_key(e, key) {
        Some(k) => match &e[k].1 {
            JsonValue::Str(s) => str_eq(s.as_str(), want),
            _ => false,
        },
        None => false,
    }
}

fn build_node(v: &JsonValue) -> (r: Option<BookmarkNode>)
    ensures
        match r {
            Some(n) => json_node(*v) == Some(node_view(n)),
            None => json_node(*v) == None::<NodeModel>,
        },
    decreases v,
{
    match v {
        JsonValue::Object(e) => {
            if member_is(e, "type", "folder") {
                let name = text_member(e, "name");
                proof {
                    assert(decreases_to!(*v => v->Object_0));
                }
                let children = children_of(e);
                Some(BookmarkNode::Folder { name, children })
            } else if member_is(e, "type", "url") {
                let name = text_member(e, "name");
                let url = text_member(e, "url");
                Some(BookmarkNode::Link { name, url })
            } else {
                None
            }
        },
        _ => None,
    }
}

fn build_nodes(a: &Vec<JsonValue>) -> (r: Vec<BookmarkNode>)
    ensures
        nodes_view(r@) == json_nodes(a@),
    decreases a,
{
    let mut out: Vec<BookmarkNode> = Vec::new();
    let mut i: usize = 0;
    while i < a.len()
        invariant
            i <= a@.len(),
            nodes_view(out@) == json_nodes(a@.take(i as int)),
        decreases a.len() - i,
    {
        proof {
            assert(a@.take(i + 1).drop_last() == a@.take(i as int));
            assert(decreases_to!(a => a@[i as int]));
        }
        match build_node(&a[i]) {
            Some(n) => {
                proof {
                    lemma_nodes_view_push(out@, n);
                }
                out.push(n);
            },
            None => {},
        }
        i = i + 1;
    }
    assert(a@.take(a.len() as int) == a@);
    out
}

fn children_of(e: &Vec<(String, JsonValue)>) -> (r: Vec<BookmarkNode>)
    ensures
        nodes_view(r@) == children_from(e@, 0),
    decreases e,
{
    let mut i: usize = 0;
    while i < e.len()
        invariant
            i <= e@.len(),
            children_from(e@, 0) == children_from(e@, i as int),
        decreases e.len() - i,
    {
        if str_eq(e[i].0.as_str(), "children") {
            match &e[i].1 {
                JsonValue::Array(a) => {
                    proof {
                        assert(decreases_to!(e => e@[i as int]));
                        assert(decreases_to!(e@[i as int] => e@[i as int].1));
                        assert(decreases_to!(e@[i as int].1 => e@[i as int].1->Array_0));
                    }
                    return build_nodes(a);
                },
                _ => {
                    return Vec::new();
                },
            }
        }
        i = i + 1;
    }
    Vec::new()
}

fn build_root(v: &JsonValue) -> (r: BookmarkNode)
    ensures
        node_view(r) == root_folder(*v),
{
    match v {
        JsonValue::Object(e) => {
            let name = text_member(e, "name");
            let children = children_of(e);
            BookmarkNode::Folder { name, children }
        },
        _ => BookmarkNode::Folder { name: String::new(), children: Vec::new() },
    }
}

/// Builds the canonical tree of a bookmark document: one folder per member of
/// its `roots` object, holding the folders and links found below it. Values
/// whose `type` is neither `folder` nor `url` are left out.
pub fn build_json_tree(doc: &JsonValue) -> (r: Vec<BookmarkNode>)
    ensures
        nodes_view(r@) == json_tree(*doc),
{
    let mut out: Vec<BookmarkNode> = Vec::new();
    if let JsonValue::Object(e) = doc {
        if let Some(k) = find_key(e, "roots") {
            if let JsonValue::Object(r) = &e[k].1 {
                let mut i: usize = 0;
                while i < r.len()
                    invariant
                        i <= r@.len(),
                        nodes_view(out@) == root_folders(r@.take(i as int)),
                    decreases r.len() - i,
                {
                    proof {
                        assert(r@.take(i + 1).drop_last() == r@.take(i as int));
                    }
                    let n = build_root(&r[i].1);
                    proof {
                        lemma_nodes_view_push(out@, n);
                    }
                    out.push(n);
                    i = i + 1;
                }
                assert(r@.take(r.len() as int) == r@);
            }
        }
    }
    out
}

/// Number of values with a recognized `type` (`folder` or `url`) reached from
/// `v` through the `children` arrays of folders.
pub open spec fn json_count(v: JsonValue) -> nat
    decreases v, 0int,
{
    match v {
        JsonValue::Object(e) => {
            let t = str_member(e@, "type"@);
            if t == Some("folder"@) {
                1 + children_count(e@, 0)
            } else if t == Some("url"@) {
                1
            } else {
                0
            }
        },
        _ => 0,
    }
}

pub open spec fn json_count_seq(s: Seq<JsonValue>) -> nat
    decreases s, 0int,
{
    if s.len() == 0 {
        0
    } else {
        json_count_seq(s.drop_last()) + json_count(s.last())
    }
}

pub open spec fn children_count(e: Seq<(String, JsonValue)>, i: int) -> nat
    decreases e, e.len() - i,
{
    if i < 0 || i >= e.len() {
        0
    } else if e[i].0@ == "children"@ {
        match e[i].1 {
            JsonValue::Array(a) => json_count_seq(a@),
            _ => 0,
        }
    } else {
        children_count(e, i + 1)
    }
}

/// Whether a member value is a folder object (`"type": "folder"`).
pub open spec fn is_folder_object(v: JsonValue) -> bool {
    match v {
        JsonValue::Object(e) => str_member(e@, "type"@) == Some("folder"@),
        _ => false,
    }
}

/// The members of the `roots` object of a document.
pub open spec fn root_members(doc: JsonValue) -> Seq<(String, JsonValue)> {
    match doc {
        JsonValue::Object(e) => match member(e@, "roots"@) {
            Some(JsonValue::Object(r)) => r@,
            _ => Seq::empty(),
        },
        _ => Seq::empty(),
    }
}

pub open spec fn members_count(r: Seq<(String, JsonValue)>) -> nat
    decreases r.len(),
{
    if r.len() == 0 {
        0
    } else {
        members_count(r.drop_last()) + json_count(r.last().1)
    }
}

proof fn lemma_node_count(v: JsonValue)
    ensures
        match json_node(v) {
            Some(n) => node_count(n) == json_count(v),
            None => json_count(v) == 0,
        },
    decreases v, 0int,
{
    match v {
        JsonValue::Object(e) => {
            lemma_children_count(e@, 0);
        },
        _ => {},
    }
}

proof fn lemma_nodes_count(s: Seq<JsonValue>)
    ensures
        forest_count(json_nodes(s)) == json_count_seq(s),
    decreases s, 0int,
{
    if s.len() > 0 {
        lemma_nodes_count(s.drop_last());
        lemma_node_count(s.last());
        let rest = json_nodes(s.drop_last());
        match json_node(s.last()) {
            Some(n) => {
                assert(rest.push(n).drop_last() == rest);
            },
            None => {},
        }
    }
}

proof fn lemma_children_count(e: Seq<(String, JsonValue)>, i: int)
    ensures
        forest_count(children_from(e, i)) == children_count(e, i),
    decreases e, e.len() - i,
{
    if 0 <= i < e.len() {
        if e[i].0@ == "children"@ {
            match e[i].1 {
                JsonValue::Array(a) => {
                    lemma_nodes_count(a@);
                },
                _ => {},
            }
        } else {
            lemma_children_count(e, i + 1);
        }
    }
}

proof fn lemma_members_count(r: Seq<(String, JsonValue)>)
    requires
        forall|j: int| 0 <= j < r.len() ==> is_folder_object(#[trigger] r[j].1),
    ensures
        forest_count(root_folders(r)) == members_count(r),
    decreases r.len(),
{
    if r.len() > 0 {
        let p = r.drop_last();
        assert forall|j: int| 0 <= j < p.len() implies is_folder_object(#[trigger] p[j].1) by {
            assert(p[j] == r[j]);
        }
        lemma_members_count(p);
        assert(is_folder_object(r[r.len() - 1].1));
        lemma_node_count(r.last().1);
        assert(root_folders(r).drop_last() == root_folders(p));
    }
}

/// The folders plus links of a built tree are exactly the values of the
/// document whose `type` is recognized (`folder` or `url`), counted from the
/// members of `roots` down through the `children` arrays of folders; values
/// of any other type are left out together with what lies below them. The
/// members of `roots` are taken to be folder objects.
pub proof fn lemma_json_tree_counts(doc: JsonValue)
    requires
        forall|j: int|
            0 <= j < root_members(doc).len() ==> is_folder_object(#[trigger] root_members(doc)[j].1),
    ensures
        forest_count(json_tree(doc)) == members_count(root_members(doc)),
{
    lemma_members_count(root_members(doc));
}

} // verus!
