use vstd::prelude::*;
use crate::tree::{BookmarkNode, NodeModel, node_view, nodes_view, lemma_nodes_view_push};

verus! {

/// One row of a relational bookmark store: `url` is present exactly for
/// links.
pub struct RawBookmarkRow {
    pub id: i64,
    pub parent: i64,
    pub title: Option<String>,
    pub url: Option<String>,
    pub position: Option<i64>,
}

/// The five well-known top-level containers.
pub open spec fn root_ids() -> Seq<i64> {
    Seq::new(5, |k: int| (k + 1) as i64)
}

/// A row with neither a title nor a position is malformed and left out.
pub open spec fn kept(r: RawBookmarkRow) -> bool {
    r.title is Some || r.position is Some
}

/// Index of the first row at or after `k` whose id is `id`, or -1.
pub open spec fn row_with_id(rows: Seq<RawBookmarkRow>, id: i64, k: int) -> int
    decreases rows.len() - k,
{
    if k < 0 || k >= rows.len() {
        -1
    } else if rows[k].id == id {
        k
    } else {
        row_with_id(rows, id, k + 1)
    }
}

/// Following parent ids up from row `j` (to the first row that carries each
/// id) meets a row whose id is `target` within `steps` steps.
pub open spec fn climbs_to(rows: Seq<RawBookmarkRow>, j: int, target: i64, steps: nat) -> bool
    decreases steps,
{
    if steps == 0 {
        false
    } else {
        let k = row_with_id(rows, rows[j].parent, 0);
        0 <= k < rows.len() && (rows[k].id == target || climbs_to(rows, k, target, (steps - 1) as nat))
    }
}

/// Row `i` lies on a parent cycle: following parent ids up from it comes
/// back to its own id. Such a chain comes back, if at all, before it has
/// taken as many steps as there are rows.
pub open spec fn on_cycle(rows: Seq<RawBookmarkRow>, i: int) -> bool {
    climbs_to(rows, i, rows[i].id, rows.len())
}

/// Row `i` takes part in the tree: it is well formed and not on a parent
/// cycle.
pub open spec fn admitted(rows: Seq<RawBookmarkRow>, i: int) -> bool {
    kept(rows[i]) && !on_cycle(rows, i)
}

/// Order of positions: a missing position comes first.
pub open spec fn pos_le(a: Option<i64>, b: Option<i64>) -> bool {
    match a {
        None => true,
        Some(x) => match b {
            None => false,
            Some(y) => x <= y,
        },
    }
}

/// `x` inserted into `s` after every entry whose position is not greater.
pub open spec fn ins(rows: Seq<RawBookmarkRow>, s: Seq<usize>, x: usize) -> Seq<usize>
    decreases s.len(),
{
    if s.len() == 0 {
        seq![x]
    } else if pos_le(rows[s.last() as int].position, rows[x as int].position) {
        s.push(x)
    } else {
        ins(rows, s.drop_last(), x).push(s.last())
    }
}

/// The admitted rows among the first `n` whose parent is `p`, by position, rows
/// with equal positions in row order.
pub open spec fn child_order(rows: Seq<RawBookmarkRow>, p: i64, n: int) -> Seq<usize>
    decreases n,
{
    if n <= 0 {
        Seq::empty()
    } else {
        let prev = child_order(rows, p, n - 1);
        if rows[n - 1].parent == p && admitted(rows, n - 1) {
            ins(rows, prev, (n - 1) as usize)
        } else {
            prev
        }
    }
}

pub open spec fn children_order(rows: Seq<RawBookmarkRow>, p: i64) -> Seq<usize> {
    child_order(rows, p, rows.len() as int)
}

pub open spec fn opt_text(t: Option<String>) -> Seq<char> {
    match t {
        Some(s) => s@,
        None => Seq::empty(),
    }
}

/// The node of row `i`, below the ancestors `path`; `fuel` bounds the depth
/// that is still allowed below it.
pub open spec fn row_node(rows: Seq<RawBookmarkRow>, i: usize, path: Seq<i64>, fuel: nat) -> NodeModel
    decreases fuel, 1nat, 0nat,
{
    let r = rows[i as int];
    match r.url {
        Some(u) => NodeModel::Link { name: opt_text(r.title), url: u@ },
        None => NodeModel::Folder {
            name: opt_text(r.title),
            children: subtree(rows, r.id, path.push(r.id), fuel),
        },
    }
}

/// The children of the folder with id `p`, whose ancestors (itself
/// included) are `path`; none once the depth allowance is spent.
pub open spec fn subtree(rows: Seq<RawBookmarkRow>, p: i64, path: Seq<i64>, fuel: nat) -> Seq<NodeModel>
    decreases fuel, 0nat, 0nat,
{
    if fuel == 0 {
        Seq::empty()
    } else {
        nodes_of(rows, children_order(rows, p), path, (fuel - 1) as nat)
    }
}

/// The nodes of the rows `order`, leaving out a row whose id is already one
/// of its ancestors (possible only where ids repeat).
pub open spec fn nodes_of(rows: Seq<RawBookmarkRow>, order: Seq<usize>, path: Seq<i64>, fuel: nat) -> Seq<NodeModel>
    decreases fuel, 2nat, order.len(),
{
    if order.len() == 0 {
        Seq::empty()
    } else {
        let rest = nodes_of(rows, order.drop_last(), path, fuel);
        let i = order.last();
        if 0 <= i < rows.len() && !path.contains(rows[i as int].id) {
            rest.push(row_node(rows, i, path, fuel))
        } else {
            rest
        }
    }
}

/// The forest of a row set: one unnamed folder per well-known root id, in
/// order, each holding the admitted rows below it (rows on a parent cycle
/// are never admitted, so they and everything below them stay out);
/// nesting is allowed as deep as there are rows.
pub open spec fn rows_tree(rows: Seq<RawBookmarkRow>) -> Seq<NodeModel> {
    Seq::new(
        5,
        |k: int|
            NodeModel::Folder {
                name: Seq::empty(),
                children: subtree(rows, root_ids()[k], seq![root_ids()[k]], rows.len()),
            },
    )
}

proof fn lemma_push_contains<A>(s: Seq<A>, a: A, y: A)
    ensures
        s.push(a).contains(y) <==> (s.contains(y) || y == a),
{
    if s.contains(y) {
        let k = choose|k: int| 0 <= k < s.len() && s[k] == y;
        assert(s.push(a)[k] == y);
    }
    if y == a {
        assert(s.push(a)[s.len() as int] == y);
    }
    if s.push(a).contains(y) {
        let k = choose|k: int| 0 <= k < s.len() + 1 && s.push(a)[k] == y;
        if k < s.len() {
            assert(s[k] == y);
        }
    }
}

proof fn lemma_drop_last_contains<A>(s: Seq<A>, y: A)
    requires
        s.len() > 0,
    ensures
        s.contains(y) <==> (s.drop_last().contains(y) || y == s.last()),
{
    assert(s == s.drop_last().push(s.last()));
    lemma_push_contains(s.drop_last(), s.last(), y);
}

/// Insertion adds `x` and keeps every entry.
proof fn lemma_ins_contents(rows: Seq<RawBookmarkRow>, s: Seq<usize>, x: usize)
    ensures
        ins(rows, s, x).len() == s.len() + 1,
        forall|y: usize| #[trigger] ins(rows, s, x).contains(y) <==> (s.contains(y) || y == x),
    decreases s.len(),
{
    if s.len() == 0 {
        assert forall|y: usize| #[trigger] ins(rows, s, x).contains(y) <==> (s.contains(y) || y == x) by {
            lemma_push_contains(s, x, y);
            assert(s.push(x) == seq![x]);
        }
    } else if pos_le(rows[s.last() as int].position, rows[x as int].position) {
        assert forall|y: usize| #[trigger] ins(rows, s, x).contains(y) <==> (s.contains(y) || y == x) by {
            lemma_push_contains(s, x, y);
        }
    } else {
        let d = s.drop_last();
        lemma_ins_contents(rows, d, x);
        assert forall|y: usize| #[trigger] ins(rows, s, x).contains(y) <==> (s.contains(y) || y == x) by {
            lemma_push_contains(ins(rows, d, x), s.last(), y);
            lemma_drop_last_contains(s, y);
        }
    }
}

/// Every entry of a child order is a row index below `n`.
proof fn lemma_child_order_bound(rows: Seq<RawBookmarkRow>, p: i64, n: int)
    ensures
        forall|k: int| 0 <= k < child_order(rows, p, n).len() ==> #[trigger] child_order(rows, p, n)[k] < n,
    decreases n,
{
    if n > 0 {
        lemma_child_order_bound(rows, p, n - 1);
        let prev = child_order(rows, p, n - 1);
        if rows[n - 1].parent == p && admitted(rows, n - 1) {
            let x = (n - 1) as usize;
            lemma_ins_contents(rows, prev, x);
            assert forall|k: int| 0 <= k < child_order(rows, p, n).len() implies #[trigger] child_order(
                rows,
                p,
                n,
            )[k] < n by {
                let y = child_order(rows, p, n)[k];
                assert(ins(rows, prev, x).contains(y));
                if y != x {
                    let j = choose|j: int| 0 <= j < prev.len() && prev[j] == y;
                }
            }
        }
    }
}

fn pos_le_exec(a: Option<i64>, b: Option<i64>) -> (r: bool)
    ensures
        r == pos_le(a, b),
{
    match a {
        None => true,
        Some(x) => match b {
            None => false,
            Some(y) => x <= y,
        },
    }
}

fn insert_by_position(rows: &Vec<RawBookmarkRow>, v: &mut Vec<usize>, x: usize)
    requires
        x < rows.len(),
        forall|k: int| 0 <= k < old(v).len() ==> #[trigger] old(v)@[k] < rows.len(),
        old(v).len() < usize::MAX,
    ensures
        final(v)@ == ins(rows@, old(v)@, x),
{
    let mut pos = v.len();
    proof {
        assert(v@.take(pos as int) == v@);
        assert(ins(rows@, v@, x) + v@.skip(pos as int) == ins(rows@, v@, x));
    }
    while pos > 0 && !pos_le_exec(rows[v[pos - 1]].position, rows[x].position)
        invariant
            x < rows.len(),
            forall|k: int| 0 <= k < v.len() ==> #[trigger] v@[k] < rows.len(),
            pos <= v.len(),
            ins(rows@, v@, x) == ins(rows@, v@.take(pos as int), x) + v@.skip(pos as int),
        decreases pos,
    {
        proof {
            let t = v@.take(pos as int);
            assert(t.drop_last() == v@.take(pos - 1));
            assert(v@.skip(pos - 1) == seq![v@[pos - 1]] + v@.skip(pos as int));
            assert(ins(rows@, t, x) == ins(rows@, v@.take(pos - 1), x).push(v@[pos - 1]));
        }
        pos = pos - 1;
    }
    proof {
        let t = v@.take(pos as int);
        if pos > 0 {
            assert(ins(rows@, t, x) == t.push(x));
        } else {
            assert(ins(rows@, t, x) == seq![x]);
        }
        assert(ins(rows@, v@, x) == v@.insert(pos as int, x));
    }
    v.insert(pos, x);
}

/// The first row whose id is `id`.
fn first_row_with_id(rows: &Vec<RawBookmarkRow>, id: i64) -> (r: Option<usize>)
    ensures
        match r {
            Some(k) => k < rows.len() && row_with_id(rows@, id, 0) == k,
            None => row_with_id(rows@, id, 0) == -1,
        },
{
    let mut k: usize = 0;
    while k < rows.len()
        invariant
            k <= rows.len(),
            row_with_id(rows@, id, 0) == row_with_id(rows@, id, k as int),
        decreases rows.len() - k,
    {
        if rows[k].id == id {
            return Some(k);
        }
        k = k + 1;
    }
    None
}

/// `p` is where the parent of row `j` is found.
pub open spec fn parent_slot(rows: Seq<RawBookmarkRow>, j: int, p: Option<usize>) -> bool {
    match p {
        Some(k) => k < rows.len() && row_with_id(rows, rows[j].parent, 0) == k,
        None => row_with_id(rows, rows[j].parent, 0) == -1,
    }
}

/// For each row, the first row that carries its parent's id.
fn parent_rows(rows: &Vec<RawBookmarkRow>) -> (r: Vec<Option<usize>>)
    ensures
        r.len() == rows.len(),
        forall|j: int| 0 <= j < rows.len() ==> parent_slot(rows@, j, #[trigger] r@[j]),
{
    let mut out: Vec<Option<usize>> = Vec::new();
    let mut j: usize = 0;
    while j < rows.len()
        invariant
            j <= rows.len(),
            out.len() == j,
            forall|i: int| 0 <= i < j ==> parent_slot(rows@, i, #[trigger] out@[i]),
        decreases rows.len() - j,
    {
        out.push(first_row_with_id(rows, rows[j].parent));
        j = j + 1;
    }
    out
}

fn row_on_cycle(rows: &Vec<RawBookmarkRow>, parents: &Vec<Option<usize>>, i: usize) -> (r: bool)
    requires
        i < rows.len(),
        parents.len() == rows.len(),
        forall|j: int| 0 <= j < rows.len() ==> parent_slot(rows@, j, #[trigger] parents@[j]),
    ensures
        r == on_cycle(rows@, i as int),
{
    let target = rows[i].id;
    let mut j: usize = i;
    let mut steps: usize = rows.len();
    while steps > 0
        invariant
            j < rows.len(),
            target == rows@[i as int].id,
            parents.len() == rows.len(),
            forall|m: int| 0 <= m < rows.len() ==> parent_slot(rows@, m, #[trigger] parents@[m]),
            on_cycle(rows@, i as int) == climbs_to(rows@, j as int, target, steps as nat),
        decreases steps,
    {
        assert(parent_slot(rows@, j as int, parents@[j as int]));
        match parents[j] {
            None => {
                return false;
            },
            Some(k) => {
                if rows[k].id == target {
                    return true;
                }
                j = k;
                steps = steps - 1;
            },
        }
    }
    false
}

/// Which rows lie on a parent cycle.
fn cycle_flags(rows: &Vec<RawBookmarkRow>) -> (r: Vec<bool>)
    ensures
        r.len() == rows.len(),
        forall|i: int| 0 <= i < rows.len() ==> #[trigger] r@[i] == on_cycle(rows@, i),
{
    let parents = parent_rows(rows);
    let mut out: Vec<bool> = Vec::new();
    let mut i: usize = 0;
    while i < rows.len()
        invariant
            i <= rows.len(),
            out.len() == i,
            parents.len() == rows.len(),
            forall|j: int| 0 <= j < rows.len() ==> parent_slot(rows@, j, #[trigger] parents@[j]),
            forall|m: int| 0 <= m < i ==> #[trigger] out@[m] == on_cycle(rows@, m),
        decreases rows.len() - i,
    {
        out.push(row_on_cycle(rows, &parents, i));
        i = i + 1;
    }
    out
}

/// `cyc` tells for each row whether it lies on a parent cycle.
pub open spec fn cycles_marked(rows: Seq<RawBookmarkRow>, cyc: Seq<bool>) -> bool {
    cyc.len() == rows.len() && forall|i: int| 0 <= i < rows.len() ==> #[trigger] cyc[i] == on_cycle(rows, i)
}

/// The admitted rows whose parent is `p`, by position.
fn children_order_exec(rows: &Vec<RawBookmarkRow>, cyc: &Vec<bool>, p: i64) -> (r: Vec<usize>)
    requires
        cycles_marked(rows@, cyc@),
    ensures
        r@ == children_order(rows@, p),
        forall|k: int| 0 <= k < r.len() ==> #[trigger] r@[k] < rows.len(),
{
    let mut out: Vec<usize> = Vec::new();
    let mut n: usize = 0;
    while n < rows.len()
        invariant
            n <= rows.len(),
            out@ == child_order(rows@, p, n as int),
            out.len() <= n,
            cycles_marked(rows@, cyc@),
        decreases rows.len() - n,
    {
        proof {
            lemma_child_order_bound(rows@, p, n as int);
        }
        let r = &rows[n];
        if r.parent == p && (r.title.is_some() || r.position.is_some()) && !cyc[n] {
            proof {
                lemma_ins_contents(rows@, out@, n);
            }
            insert_by_position(rows, &mut out, n);
        }
        n = n + 1;
    }
    proof {
        lemma_child_order_bound(rows@, p, rows.len() as int);
    }
    out
}

fn contains_id(path: &Vec<i64>, id: i64) -> (r: bool)
    ensures
        r == path@.contains(id),
{
    let mut i: usize = 0;
    while i < path.len()
        invariant
            i <= path.len(),
            forall|k: int| 0 <= k < i ==> path@[k] != id,
        decreases path.len() - i,
    {
        if path[i] == id {
            return true;
        }
        i = i + 1;
    }
    false
}

fn opt_text_exec(t: &Option<String>) -> (r: String)
    ensures
        r@ == opt_text(*t),
{
    match t {
        Some(s) => s.clone(),
        None => String::new(),
    }
}

fn row_node_exec(rows: &Vec<RawBookmarkRow>, cyc: &Vec<bool>, i: usize, path: &mut Vec<i64>, fuel: usize) -> (r:
    BookmarkNode)
    requires
        i < rows.len(),
        cycles_marked(rows@, cyc@),
    ensures
        node_view(r) == row_node(rows@, i, old(path)@, fuel as nat),
        final(path)@ == old(path)@,
    decreases fuel, 1nat,
{
    let r = &rows[i];
    let name = opt_text_exec(&r.title);
    match &r.url {
        Some(u) => BookmarkNode::Link { name, url: u.clone() },
        None => {
            let ghost before = path@;
            path.push(r.id);
            let children = subtree_exec(rows, cyc, r.id, path, fuel);
            let _ = path.pop();
            assert(path@ == before);
            BookmarkNode::Folder { name, children }
        },
    }
}

fn subtree_exec(rows: &Vec<RawBookmarkRow>, cyc: &Vec<bool>, p: i64, path: &mut Vec<i64>, fuel: usize) -> (r:
    Vec<BookmarkNode>)
    requires
        cycles_marked(rows@, cyc@),
    ensures
        nodes_view(r@) == subtree(rows@, p, old(path)@, fuel as nat),
        final(path)@ == old(path)@,
    decreases fuel, 0nat,
{
    let mut out: Vec<BookmarkNode> = Vec::new();
    if fuel == 0 {
        return out;
    }
    let order = children_order_exec(rows, cyc, p);
    let ghost o = order@;
    let mut k: usize = 0;
    while k < order.len()
        invariant
            k <= order.len(),
            order@ == o,
            o == children_order(rows@, p),
            forall|j: int| 0 <= j < order.len() ==> #[trigger] order@[j] < rows.len(),
            path@ == old(path)@,
            cycles_marked(rows@, cyc@),
            fuel > 0,
            nodes_view(out@) == nodes_of(rows@, o.take(k as int), path@, (fuel - 1) as nat),
        decreases order.len() - k,
    {
        let i = order[k];
        proof {
            assert(o.take(k + 1).drop_last() == o.take(k as int));
            assert(o.take(k + 1).last() == i);
        }
        if !contains_id(path, rows[i].id) {
            let n = row_node_exec(rows, cyc, i, path, fuel - 1);
            proof {
                lemma_nodes_view_push(out@, n);
            }
            out.push(n);
        }
        k = k + 1;
    }
    assert(o.take(order.len() as int) == o);
    out
}

/// Builds the canonical tree of a relational row set: one unnamed folder per
/// well-known root id (1 to 5), each holding the rows whose parent it is,
/// by position, and so on down. A row is a link when it has a url, else a
/// folder. Rows with neither title nor position are left out, and so are
/// rows on a parent cycle (following parent ids up from them comes back to
/// their own id), together with everything below them. Where ids repeat, a
/// row whose id is already one of its ancestors is left out too, and no
/// folder is nested deeper than there are rows.
pub fn build_rows_tree(rows: &Vec<RawBookmarkRow>) -> (r: Vec<BookmarkNode>)
    ensures
        nodes_view(r@) == rows_tree(rows@),
{
    let cyc = cycle_flags(rows);
    let mut out: Vec<BookmarkNode> = Vec::new();
    let mut root: i64 = 1;
    while root <= 5
        invariant
            1 <= root <= 6,
            cycles_marked(rows@, cyc@),
            nodes_view(out@) == rows_tree(rows@).take(root - 1),
        decreases 6 - root,
    {
        let mut path: Vec<i64> = Vec::new();
        path.push(root);
        proof {
            assert(path@ == seq![root]);
            assert(root_ids()[root - 1] == root);
        }
        let children = subtree_exec(rows, &cyc, root, &mut path, rows.len());
        let n = BookmarkNode::Folder { name: String::new(), children };
        proof {
            lemma_nodes_view_push(out@, n);
            assert(rows_tree(rows@).take(root as int) == rows_tree(rows@).take(root - 1).push(
                rows_tree(rows@)[root - 1],
            ));
        }
        out.push(n);
        root = root + 1;
    }
    assert(rows_tree(rows@).take(5) == rows_tree(rows@));
    out
}

/// Entries of `s` are in position order.
pub open spec fn by_position(rows: Seq<RawBookmarkRow>, s: Seq<usize>) -> bool {
    forall|a: int, b: int|
        0 <= a < b < s.len() ==> pos_le(#[trigger] rows[s[a] as int].position, #[trigger] rows[s[b] as int].position)
}

/// Entries of `s` with equal positions are in row order.
pub open spec fn ties_in_row_order(rows: Seq<RawBookmarkRow>, s: Seq<usize>) -> bool {
    forall|a: int, b: int|
        0 <= a < b < s.len() && #[trigger] rows[s[a] as int].position == #[trigger] rows[s[b] as int].position
            ==> s[a] < s[b]
}

proof fn lemma_ins_order(rows: Seq<RawBookmarkRow>, s: Seq<usize>, x: usize)
    requires
        by_position(rows, s),
        ties_in_row_order(rows, s),
        s.no_duplicates(),
        !s.contains(x),
        forall|k: int| 0 <= k < s.len() ==> #[trigger] s[k] < x,
    ensures
        by_position(rows, ins(rows, s, x)),
        ties_in_row_order(rows, ins(rows, s, x)),
        ins(rows, s, x).no_duplicates(),
    decreases s.len(),
{
    lemma_ins_contents(rows, s, x);
    if s.len() == 0 {
    } else if pos_le(rows[s.last() as int].position, rows[x as int].position) {
        let t = s.push(x);
        assert forall|a: int, b: int| 0 <= a < b < t.len() implies pos_le(
            #[trigger] rows[t[a] as int].position,
            #[trigger] rows[t[b] as int].position,
        ) by {
            if b == s.len() {
                if a < s.len() - 1 {
                    assert(pos_le(rows[s[a] as int].position, rows[s[s.len() - 1] as int].position));
                }
            }
        }
    } else {
        let d = s.drop_last();
        let l = s.last();
        assert(!d.contains(x)) by {
            if d.contains(x) {
                let j = choose|j: int| 0 <= j < d.len() && d[j] == x;
                assert(s[j] == x);
            }
        }
        lemma_ins_order(rows, d, x);
        lemma_ins_contents(rows, d, x);
        let t = ins(rows, d, x);
        assert forall|a: int| 0 <= a < t.len() implies pos_le(
            rows[t[a] as int].position,
            rows[l as int].position,
        ) && (rows[t[a] as int].position == rows[l as int].position ==> t[a] < l) && t[a] != l by {
            assert(t.contains(t[a]));
            if t[a] != x {
                let j = choose|j: int| 0 <= j < d.len() && d[j] == t[a];
                assert(s[j] == t[a]);
                assert(pos_le(rows[s[j] as int].position, rows[s[s.len() - 1] as int].position));
                assert(s[j] != s[s.len() - 1]);
            }
        }
        let u = t.push(l);
        assert forall|a: int, b: int| 0 <= a < b < u.len() implies pos_le(
            #[trigger] rows[u[a] as int].position,
            #[trigger] rows[u[b] as int].position,
        ) by {
            if b == t.len() {
                assert(u[a] == t[a]);
            } else {
                assert(u[a] == t[a] && u[b] == t[b]);
            }
        }
        assert forall|a: int, b: int|
            0 <= a < b < u.len() && #[trigger] rows[u[a] as int].position
                == #[trigger] rows[u[b] as int].position implies u[a] < u[b] by {
            if b == t.len() {
                assert(u[a] == t[a]);
            } else {
                assert(u[a] == t[a] && u[b] == t[b]);
            }
        }
        assert forall|a: int, b: int| 0 <= a < b < u.len() implies u[a] != u[b] by {
            if b == t.len() {
                assert(u[a] == t[a]);
            } else {
                assert(u[a] == t[a] && u[b] == t[b]);
            }
        }
    }
}

proof fn lemma_child_order(rows: Seq<RawBookmarkRow>, p: i64, n: int)
    requires
        0 <= n <= rows.len(),
        rows.len() <= usize::MAX,
    ensures
        by_position(rows, child_order(rows, p, n)),
        ties_in_row_order(rows, child_order(rows, p, n)),
        child_order(rows, p, n).no_duplicates(),
        forall|y: usize|
            #[trigger] child_order(rows, p, n).contains(y) <==> (y < n && rows[y as int].parent == p
                && admitted(rows, y as int)),
    decreases n,
{
    if n > 0 {
        lemma_child_order(rows, p, n - 1);
        lemma_child_order_bound(rows, p, n - 1);
        let prev = child_order(rows, p, n - 1);
        let x = (n - 1) as usize;
        assert(!prev.contains(x));
        if rows[n - 1].parent == p && admitted(rows, n - 1) {
            lemma_ins_order(rows, prev, x);
            lemma_ins_contents(rows, prev, x);
        }
        assert forall|y: usize|
            #[trigger] child_order(rows, p, n).contains(y) <==> (y < n && rows[y as int].parent == p
                && admitted(rows, y as int)) by {
            if y == x {
                if prev.contains(y) {
                    let j = choose|j: int| 0 <= j < prev.len() && prev[j] == y;
                }
            }
        }
    }
}

/// Siblings in a tree built from rows keep the order of the row store: the
/// children of the folder with id `p` are exactly the admitted rows (well
/// formed, not on a parent cycle) whose parent is `p`, each once, by ascending position, rows with equal positions in
/// row order. Every folder of `rows_tree` takes its children in this order,
/// so a depth-first walk of the tree meets siblings at every level in
/// `(parent, position)` order.
pub proof fn lemma_siblings_in_position_order(rows: Seq<RawBookmarkRow>, p: i64)
    requires
        rows.len() <= usize::MAX,
    ensures
        by_position(rows, children_order(rows, p)),
        ties_in_row_order(rows, children_order(rows, p)),
        children_order(rows, p).no_duplicates(),
        forall|y: usize|
            #[trigger] children_order(rows, p).contains(y) <==> (y < rows.len() && rows[y as int].parent
                == p && admitted(rows, y as int)),
{
    lemma_child_order(rows, p, rows.len() as int);
}

} // verus!
