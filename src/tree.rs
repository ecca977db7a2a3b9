use vstd::prelude::*;

verus! {

/// What a bookmark tree means, as a mathematical value.
pub enum NodeModel {
    Folder { name: Seq<char>, children: Seq<NodeModel> },
    Link { name: Seq<char>, url: Seq<char> },
}

/// A node of the canonical bookmark tree: a folder with its children in
/// source order, or a link.
pub enum BookmarkNode {
    Folder { name: String, children: Vec<BookmarkNode> },
    Link { name: String, url: String },
}

/// The model of one node.
pub open spec fn node_view(n: BookmarkNode) -> NodeModel
    decreases n,
{
    match n {
        BookmarkNode::Folder { name, children } => NodeModel::Folder {
            name: name@,
            children: nodes_view(children@),
        },
        BookmarkNode::Link { name, url } => NodeModel::Link { name: name@, url: url@ },
    }
}

/// The models of a sequence of nodes, in order.
pub open spec fn nodes_view(s: Seq<BookmarkNode>) -> Seq<NodeModel>
    decreases s,
{
    if s.len() == 0 {
        Seq::empty()
    } else {
        nodes_view(s.drop_last()).push(node_view(s.last()))
    }
}

impl View for BookmarkNode {
    type V = NodeModel;

    open spec fn view(&self) -> NodeModel {
        node_view(*self)
    }
}

/// Number of nodes (folders and links) in a tree.
pub open spec fn node_count(n: NodeModel) -> nat
    decreases n,
{
    match n {
        NodeModel::Folder { children, .. } => 1 + forest_count(children),
        NodeModel::Link { .. } => 1,
    }
}

/// Number of nodes (folders and links) in a sequence of trees.
pub open spec fn forest_count(s: Seq<NodeModel>) -> nat
    decreases s,
{
    if s.len() == 0 {
        0
    } else {
        forest_count(s.drop_last()) + node_count(s.last())
    }
}

pub proof fn lemma_nodes_view_push(s: Seq<BookmarkNode>, n: BookmarkNode)
    ensures
        nodes_view(s.push(n)) == nodes_view(s).push(node_view(n)),
{
    assert(s.push(n).drop_last() == s);
}

} // verus!
