use vstd::prelude::*;
use crate::tree::{BookmarkNode, NodeModel, node_view, nodes_view, lemma_nodes_view_push};

verus! {

/// How one character of text content is written out.
pub open spec fn text_entity(c: char) -> Seq<char> {
    if c == '&' {
        seq!['&', 'a', 'm', 'p', ';']
    } else if c == '<' {
        seq!['&', 'l', 't', ';']
    } else if c == '>' {
        seq!['&', 'g', 't', ';']
    } else {
        seq![c]
    }
}

/// How one character of a double-quoted attribute value is written out.
pub open spec fn attr_entity(c: char) -> Seq<char> {
    if c == '"' {
        seq!['&', 'q', 'u', 'o', 't', ';']
    } else {
        text_entity(c)
    }
}

/// Text content with `&`, `<` and `>` replaced by entities.
pub open spec fn text_escaped(s: Seq<char>) -> Seq<char>
    decreases s.len(),
{
    if s.len() == 0 {
        Seq::empty()
    } else {
        text_escaped(s.drop_last()) + text_entity(s.last())
    }
}

/// An attribute value with `&`, `<`, `>` and `"` replaced by entities.
pub open spec fn attr_escaped(s: Seq<char>) -> Seq<char>
    decreases s.len(),
{
    if s.len() == 0 {
        Seq::empty()
    } else {
        attr_escaped(s.drop_last()) + attr_entity(s.last())
    }
}

/// Relies on html_escape::encode_text: `&`, `<` and `>` become `&amp;`,
/// `&lt;` and `&gt;`; every other character is copied as it is.
#[verifier::external_body]
fn escape_text(s: &str) -> (r: String)
    ensures
        r@ == text_escaped(s@),
{
    html_escape::encode_text(s).into_owned()
}

/// Relies on html_escape::encode_double_quoted_attribute: `&`, `<`, `>` and
/// `"` become `&amp;`, `&lt;`, `&gt;` and `&quot;`; every other character is
/// copied as it is.
#[verifier::external_body]
fn escape_attribute(s: &str) -> (r: String)
    ensures
        r@ == attr_escaped(s@),
{
    html_escape::encode_double_quoted_attribute(s).into_owned()
}

pub open spec fn step_indent() -> Seq<char> {
    "    "@
}

/// One link as a list item, at the indentation of the list that holds it.
pub open spec fn link_line(ind: Seq<char>, name: Seq<char>, url: Seq<char>) -> Seq<char> {
    ind + "    <li><a href=\""@ + attr_escaped(url) + "\">"@ + text_escaped(name) + "</a></li>\n"@
}

/// A node written at indentation `ind`; a folder inside another folder
/// (`nested`) shows its name above its list, a top-level folder shows
/// only its list.
pub open spec fn render_node(n: NodeModel, ind: Seq<char>, nested: bool) -> Seq<char>
    decreases n,
{
    match n {
        NodeModel::Folder { name, children } => {
            let heading = if nested {
                ind + "<div class=\"folder\">"@ + text_escaped(name) + "</div>\n"@
            } else {
                Seq::empty()
            };
            heading + ind + "<ul>\n"@ + render_items(children, ind) + ind + "</ul>\n"@
        },
        NodeModel::Link { name, url } => link_line(ind, name, url),
    }
}

/// The children of a folder whose list stands at indentation `ind`.
pub open spec fn render_items(s: Seq<NodeModel>, ind: Seq<char>) -> Seq<char>
    decreases s,
{
    if s.len() == 0 {
        Seq::empty()
    } else {
        render_items(s.drop_last(), ind) + match s.last() {
            NodeModel::Folder { .. } => render_node(s.last(), ind + step_indent(), true),
            NodeModel::Link { name, url } => link_line(ind, name, url),
        }
    }
}

/// The top-level nodes of a document, one after another.
pub open spec fn render_roots(s: Seq<NodeModel>) -> Seq<char>
    decreases s.len(),
{
    if s.len() == 0 {
        Seq::empty()
    } else {
        render_roots(s.drop_last()) + render_node(s.last(), Seq::empty(), false)
    }
}

pub open spec fn document_head() -> Seq<char> {
    "<!DOCTYPE html>\n<html>\n<head>\n<meta charset=\"UTF-8\">\n<title>"@
}

pub open spec fn document_style() -> Seq<char> {
    "</title>\n<style>\nbody { font-family: Arial, sans-serif; margin: 20px; }\nul { list-style-type: none; }\nli { margin: 5px 0; }\na { text-decoration: none; color: #0066cc; }\na:hover { text-decoration: underline; }\n.folder { font-weight: bold; margin: 10px 0; }\n</style>\n</head>\n<body>\n<h1>"@
}

/// The whole HTML document for a forest of bookmarks under a title.
pub open spec fn html_document(title: Seq<char>, roots: Seq<NodeModel>) -> Seq<char> {
    document_head() + text_escaped(title) + document_style() + text_escaped(title) + "</h1>\n"@
        + render_roots(roots) + "</body>\n</html>"@
}

fn push_link(out: &mut String, ind: &String, name: &String, url: &String)
    ensures
        final(out)@ == old(out)@ + link_line(ind@, name@, url@),
{
    out.append(ind.as_str());
    out.append("    <li><a href=\"");
    let u = escape_attribute(url.as_str());
    out.append(u.as_str());
    out.append("\">");
    let t = escape_text(name.as_str());
    out.append(t.as_str());
    out.append("</a></li>\n");
}

fn push_node(out: &mut String, node: &BookmarkNode, ind: &String, nested: bool)
    ensures
        final(out)@ == old(out)@ + render_node(node_view(*node), ind@, nested),
    decreases node,
{
    match node {
        BookmarkNode::Folder { name, children } => {
            if nested {
                out.append(ind.as_str());
                out.append("<div class=\"folder\">");
                let t = escape_text(name.as_str());
                out.append(t.as_str());
                out.append("</div>\n");
            }
            out.append(ind.as_str());
            out.append("<ul>\n");
            let ghost before_items = out@;
            let mut inner = ind.clone();
            inner.append("    ");
            let mut i: usize = 0;
            while i < children.len()
                invariant
                    i <= children.len(),
                    *node is Folder,
                    node->children == *children,
                    inner@ == ind@ + step_indent(),
                    out@ == before_items + render_items(nodes_view(children@.take(i as int)), ind@),
                decreases children.len() - i,
            {
                let child = &children[i];
                proof {
                    let done = children@.take(i as int);
                    assert(children@.take(i + 1) == done.push(children@[i as int]));
                    lemma_nodes_view_push(done, children@[i as int]);
                    let v = nodes_view(done);
                    assert(v.push(node_view(*child)).drop_last() == v);
                    assert(node->children@[i as int] == *child);
                    assert(decreases_to!(node->children => node->children@[i as int]));
                    assert(decreases_to!(*node => node->children@[i as int]));
                }
                match child {
                    BookmarkNode::Folder { .. } => {
                        push_node(out, child, &inner, true);
                    },
                    BookmarkNode::Link { name: link_name, url } => {
                        push_link(out, ind, link_name, url);
                    },
                }
                i = i + 1;
            }
            assert(children@.take(children.len() as int) == children@);
            out.append(ind.as_str());
            out.append("</ul>\n");
        },
        BookmarkNode::Link { name, url } => {
            push_link(out, ind, name, url);
        },
    }
}

/// Writes a forest of bookmarks as one self-contained HTML document under
/// `title`; names, urls and the title are escaped.
pub fn render_document(title: &str, roots: &Vec<BookmarkNode>) -> (r: String)
    ensures
        r@ == html_document(title@, nodes_view(roots@)),
{
    let mut out = String::new();
    out.append("<!DOCTYPE html>\n<html>\n<head>\n<meta charset=\"UTF-8\">\n<title>");
    let t = escape_text(title);
    out.append(t.as_str());
    out.append("</title>\n<style>\nbody { font-family: Arial, sans-serif; margin: 20px; }\nul { list-style-type: none; }\nli { margin: 5px 0; }\na { text-decoration: none; color: #0066cc; }\na:hover { text-decoration: underline; }\n.folder { font-weight: bold; margin: 10px 0; }\n</style>\n</head>\n<body>\n<h1>");
    out.append(t.as_str());
    out.append("</h1>\n");
    let ghost before = out@;
    let top = String::new();
    let mut i: usize = 0;
    while i < roots.len()
        invariant
            i <= roots.len(),
            top@ == Seq::<char>::empty(),
            out@ == before + render_roots(nodes_view(roots@.take(i as int))),
        decreases roots.len() - i,
    {
        proof {
            let done = roots@.take(i as int);
            assert(roots@.take(i + 1) == done.push(roots@[i as int]));
            lemma_nodes_view_push(done, roots@[i as int]);
            let v = nodes_view(done);
            assert(v.push(node_view(roots@[i as int])).drop_last() == v);
        }
        push_node(&mut out, &roots[i], &top, false);
        i = i + 1;
    }
    assert(roots@.take(roots.len() as int) == roots@);
    out.append("</body>\n</html>");
    out
}

/// `t` holds the entity `e` from index `i` on.
pub open spec fn entity_at(t: Seq<char>, i: int, e: Seq<char>) -> bool {
    0 <= i && i + e.len() <= t.len() && t.subrange(i, i + e.len()) == e
}

/// `t` holds one of the entities the escapers write from index `i` on.
pub open spec fn starts_entity(t: Seq<char>, i: int) -> bool {
    ||| entity_at(t, i, seq!['&', 'a', 'm', 'p', ';'])
    ||| entity_at(t, i, seq!['&', 'l', 't', ';'])
    ||| entity_at(t, i, seq!['&', 'g', 't', ';'])
    ||| entity_at(t, i, seq!['&', 'q', 'u', 'o', 't', ';'])
}

/// No character of `t` opens or closes a tag, and every `&` starts an entity.
pub open spec fn inert_text(t: Seq<char>) -> bool {
    forall|i: int|
        0 <= i < t.len() ==> #[trigger] t[i] != '<' && t[i] != '>' && (t[i] == '&' ==> starts_entity(t, i))
}

/// As `inert_text`, and no character of `t` ends a double-quoted attribute.
pub open spec fn inert_attribute(t: Seq<char>) -> bool {
    inert_text(t) && forall|i: int| 0 <= i < t.len() ==> #[trigger] t[i] != '"'
}

proof fn lemma_inert_append(a: Seq<char>, b: Seq<char>)
    requires
        inert_text(a),
        inert_text(b),
    ensures
        inert_text(a + b),
{
    let t = a + b;
    assert forall|i: int| 0 <= i < t.len() implies #[trigger] t[i] != '<' && t[i] != '>' && (t[i] == '&'
        ==> starts_entity(t, i)) by {
        if i < a.len() {
            assert(t[i] == a[i]);
            if a[i] == '&' {
                assert(starts_entity(a, i));
                assert forall|n: int| 0 <= n && i + n <= a.len() implies #[trigger] t.subrange(i, i + n)
                    == a.subrange(i, i + n) by {
                    assert(t.subrange(i, i + n) =~= a.subrange(i, i + n));
                }
            }
        } else {
            let j = i - a.len();
            assert(t[i] == b[j]);
            if b[j] == '&' {
                assert(starts_entity(b, j));
                assert forall|n: int| 0 <= n && j + n <= b.len() implies #[trigger] t.subrange(i, i + n)
                    == b.subrange(j, j + n) by {
                    assert(t.subrange(i, i + n) =~= b.subrange(j, j + n));
                }
            }
        }
    }
}

proof fn lemma_entity_inert(c: char)
    ensures
        inert_text(text_entity(c)),
        inert_attribute(attr_entity(c)),
{
    let e = attr_entity(c);
    assert(e.subrange(0, e.len() as int) == e);
    let t = text_entity(c);
    assert(t.subrange(0, t.len() as int) == t);
}

proof fn lemma_text_escaped_inert(s: Seq<char>)
    ensures
        inert_text(text_escaped(s)),
    decreases s.len(),
{
    if s.len() > 0 {
        lemma_text_escaped_inert(s.drop_last());
        lemma_entity_inert(s.last());
        lemma_inert_append(text_escaped(s.drop_last()), text_entity(s.last()));
    }
}

proof fn lemma_attr_escaped_inert(s: Seq<char>)
    ensures
        inert_attribute(attr_escaped(s)),
    decreases s.len(),
{
    if s.len() > 0 {
        let a = attr_escaped(s.drop_last());
        let b = attr_entity(s.last());
        lemma_attr_escaped_inert(s.drop_last());
        lemma_entity_inert(s.last());
        lemma_inert_append(a, b);
        assert forall|i: int| 0 <= i < (a + b).len() implies #[trigger] (a + b)[i] != '"' by {
            if i < a.len() {
                assert((a + b)[i] == a[i]);
            } else {
                assert((a + b)[i] == b[i - a.len()]);
            }
        }
    }
}

/// Text with the entities `&amp;`, `&lt;`, `&gt;` and `&quot;` read back
/// as the characters they stand for, from left to right.
pub open spec fn unescaped(t: Seq<char>) -> Seq<char>
    decreases t.len(),
{
    if t.len() == 0 {
        Seq::empty()
    } else if t.len() >= 5 && t.take(5) == seq!['&', 'a', 'm', 'p', ';'] {
        seq!['&'] + unescaped(t.skip(5))
    } else if t.len() >= 4 && t.take(4) == seq!['&', 'l', 't', ';'] {
        seq!['<'] + unescaped(t.skip(4))
    } else if t.len() >= 4 && t.take(4) == seq!['&', 'g', 't', ';'] {
        seq!['>'] + unescaped(t.skip(4))
    } else if t.len() >= 6 && t.take(6) == seq!['&', 'q', 'u', 'o', 't', ';'] {
        seq!['"'] + unescaped(t.skip(6))
    } else {
        seq![t[0]] + unescaped(t.skip(1))
    }
}

proof fn lemma_unescape_entity(e: Seq<char>, c: char, r: Seq<char>)
    requires
        e == text_entity(c) || e == attr_entity(c),
    ensures
        unescaped(e + r) == seq![c] + unescaped(r),
{
    let t = e + r;
    assert(t.skip(e.len() as int) == r);
    if c == '&' {
        assert(t.take(5) == e);
    } else if c == '<' {
        assert(t[1] == 'l');
        if t.len() >= 5 {
            assert(t.take(5)[1] != 'a');
        }
        assert(t.take(4) == e);
    } else if c == '>' {
        assert(t[1] == 'g');
        if t.len() >= 5 {
            assert(t.take(5)[1] != 'a');
        }
        assert(t.take(4)[1] != 'l');
        assert(t.take(4) == e);
    } else if c == '"' && e == attr_entity(c) {
        assert(t[1] == 'q');
        assert(t.take(5)[1] != 'a');
        assert(t.take(4)[1] != 'l');
        assert(t.take(4)[1] != 'g');
        assert(t.take(6) == e);
    } else {
        assert(e == seq![c]);
        assert(t[0] == c);
        if t.len() >= 5 {
            assert(t.take(5)[0] != '&');
        }
        if t.len() >= 4 {
            assert(t.take(4)[0] != '&');
        }
        if t.len() >= 6 {
            assert(t.take(6)[0] != '&');
        }
    }
}

proof fn lemma_escaped_front(c: char, s: Seq<char>)
    ensures
        text_escaped(seq![c] + s) == text_entity(c) + text_escaped(s),
        attr_escaped(seq![c] + s) == attr_entity(c) + attr_escaped(s),
    decreases s.len(),
{
    let t = seq![c] + s;
    if s.len() == 0 {
        let e = Seq::<char>::empty();
        assert(t.drop_last() == e);
        assert(t.last() == c);
        assert(text_escaped(e) == e);
        assert(attr_escaped(e) == e);
        assert(e + text_entity(c) == text_entity(c));
        assert(e + attr_entity(c) == attr_entity(c));
        assert(text_entity(c) + e == text_entity(c));
        assert(attr_entity(c) + e == attr_entity(c));
        assert(s == e);
    } else {
        lemma_escaped_front(c, s.drop_last());
        assert(t.drop_last() == seq![c] + s.drop_last());
        assert(t.last() == s.last());
        assert(text_escaped(t) == text_escaped(t.drop_last()) + text_entity(t.last()));
        assert(attr_escaped(t) == attr_escaped(t.drop_last()) + attr_entity(t.last()));
        assert(text_entity(c) + text_escaped(s.drop_last()) + text_entity(s.last()) == text_entity(c) + (
        text_escaped(s.drop_last()) + text_entity(s.last())));
        assert(attr_entity(c) + attr_escaped(s.drop_last()) + attr_entity(s.last()) == attr_entity(c) + (
        attr_escaped(s.drop_last()) + attr_entity(s.last())));
    }
}

proof fn lemma_unescape_round_trip(s: Seq<char>)
    ensures
        unescaped(text_escaped(s)) == s,
        unescaped(attr_escaped(s)) == s,
    decreases s.len(),
{
    if s.len() > 0 {
        let c = s[0];
        let rest = s.skip(1);
        assert(s == seq![c] + rest);
        lemma_escaped_front(c, rest);
        lemma_unescape_round_trip(rest);
        lemma_unescape_entity(text_entity(c), c, text_escaped(rest));
        lemma_unescape_entity(attr_entity(c), c, attr_escaped(rest));
    }
}

/// Escaping makes untrusted text safe to place in the document: escaped text
/// holds no `<` or `>`, an escaped attribute value holds no `"` either, and
/// every `&` in them begins one of the entities `&amp;`, `&lt;`, `&gt;`,
/// `&quot;`; reading those entities back gives the original text again.
/// Names, urls and titles reach a rendered document only through these
/// escapers (see `link_line`, `render_node`, `html_document`).
pub proof fn lemma_escaping_is_inert(s: Seq<char>)
    ensures
        inert_text(text_escaped(s)),
        inert_attribute(attr_escaped(s)),
        unescaped(text_escaped(s)) == s,
        unescaped(attr_escaped(s)) == s,
{
    lemma_text_escaped_inert(s);
    lemma_attr_escaped_inert(s);
    lemma_unescape_round_trip(s);
}

/// Rendering depends on the tree and the title alone: equal inputs give
/// character-for-character equal documents, with no time or chance in them.
pub proof fn lemma_render_deterministic(
    title1: Seq<char>,
    roots1: Seq<NodeModel>,
    title2: Seq<char>,
    roots2: Seq<NodeModel>,
)
    requires
        title1 == title2,
        roots1 == roots2,
    ensures
        html_document(title1, roots1) == html_document(title2, roots2),
{
}

} // verus!
