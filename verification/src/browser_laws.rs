use vstd::prelude::*;

use crate::sample_tree::{
    children_of, clamped_cursor, clamped_offset, expanded_of, expected_lines, file_count, flat_node, flat_roots,
    flat_seq, kind_of, label_of, lemma_flat_roots_len, lemma_line_seq, node_at, node_below,
    moved_down, moved_up, node_rel, paths_node, paths_seq, same_head, search_cleared,
    search_filter, set_rel, toggle_target, toggled, toggled_value, with_expanded, collapsed,
    BrowserView, SampleNode,
};

verus! {

/// `a` and `b` hold the same nodes, position by position: same kinds, names and expansion
/// flags, all the way down.
pub open spec fn same_nodes(a: Seq<SampleNode>, b: Seq<SampleNode>) -> bool
    decreases a, 0int,
{
    if a.len() == 0 {
        b.len() == 0
    } else {
        &&& b.len() == a.len()
        &&& same_nodes(a.drop_last(), b.drop_last())
        &&& same_node(a.last(), b.last())
    }
}

/// `x` and `y` are the same node: same kind, name and flag, with the same nodes below.
pub open spec fn same_node(x: SampleNode, y: SampleNode) -> bool
    decreases x, 1int,
{
    &&& same_head(x, y)
    &&& match x {
        SampleNode::Root { children, .. } => same_nodes(children@, children_of(y)),
        SampleNode::Folder { children, .. } => same_nodes(children@, children_of(y)),
        SampleNode::File { .. } => true,
    }
}

proof fn lemma_same_node_refl(x: SampleNode)
    ensures
        same_node(x, x),
    decreases x, 1int,
{
    match x {
        SampleNode::Root { children, .. } => lemma_same_nodes_refl(children@),
        SampleNode::Folder { children, .. } => lemma_same_nodes_refl(children@),
        SampleNode::File { .. } => {},
    }
}

proof fn lemma_same_nodes_refl(a: Seq<SampleNode>)
    ensures
        same_nodes(a, a),
    decreases a, 0int,
{
    if a.len() > 0 {
        lemma_same_nodes_refl(a.drop_last());
        lemma_same_node_refl(a.last());
    }
}

proof fn lemma_same_pointwise(a: Seq<SampleNode>, b: Seq<SampleNode>)
    requires
        a.len() == b.len(),
        forall|i: int| 0 <= i < a.len() ==> same_node(#[trigger] a[i], b[i]),
    ensures
        same_nodes(a, b),
    decreases a.len(),
{
    if a.len() > 0 {
        let (da, db) = (a.drop_last(), b.drop_last());
        assert forall|i: int| 0 <= i < da.len() implies same_node(#[trigger] da[i], db[i]) by {
            assert(same_node(a[i], b[i]));
        }
        lemma_same_pointwise(da, db);
        assert(same_node(a[a.len() - 1], b[a.len() - 1]));
    }
}

/// Setting the flag of a node to the value it already has changes nothing.
proof fn lemma_set_own_node(x: SampleNode, y: SampleNode, q: Seq<usize>)
    requires
        node_rel(x, y, q, expanded_of(node_below(x, q))),
    ensures
        same_node(x, y),
    decreases q.len(), 1int,
{
    if q.len() == 0 {
        assert(y == x);
        lemma_same_node_refl(x);
    } else {
        lemma_set_own_seq(children_of(x), children_of(y), q);
        match x {
            SampleNode::Root { children, .. } => {},
            SampleNode::Folder { children, .. } => {},
            SampleNode::File { .. } => {},
        }
    }
}

proof fn lemma_set_own_seq(a: Seq<SampleNode>, c: Seq<SampleNode>, p: Seq<usize>)
    requires
        set_rel(a, c, p, expanded_of(node_at(a, p))),
    ensures
        same_nodes(a, c),
    decreases p.len(), 0int,
{
    let k = p[0] as int;
    let q = p.drop_first();
    assert(node_below(a[k], q) == node_at(a, p));
    lemma_set_own_node(a[k], c[k], q);
    assert forall|i: int| 0 <= i < a.len() implies same_node(#[trigger] a[i], c[i]) by {
        if i != k {
            assert(c[i] == a[i]);
            lemma_same_node_refl(a[i]);
        }
    }
    lemma_same_pointwise(a, c);
}

/// Setting the flag of one node twice leaves the second value.
proof fn lemma_set_twice(
    a: Seq<SampleNode>,
    b: Seq<SampleNode>,
    c: Seq<SampleNode>,
    p: Seq<usize>,
    v: bool,
    w: bool,
)
    requires
        set_rel(a, b, p, v),
        set_rel(b, c, p, w),
    ensures
        set_rel(a, c, p, w),
    decreases p.len(),
{
    let k = p[0] as int;
    let q = p.drop_first();
    if q.len() == 0 {
        assert(c[k] == with_expanded(a[k], w));
    } else {
        lemma_set_twice(children_of(a[k]), children_of(b[k]), children_of(c[k]), q, v, w);
    }
    assert forall|i: int| 0 <= i < a.len() && i != k implies #[trigger] c[i] == a[i] by {
        assert(c[i] == b[i]);
    }
}

/// After the flag of the node at `p` is set, that node is the old one with the new flag.
proof fn lemma_set_node_at(a: Seq<SampleNode>, b: Seq<SampleNode>, p: Seq<usize>, v: bool)
    requires
        set_rel(a, b, p, v),
    ensures
        node_at(b, p) == with_expanded(node_at(a, p), v),
    decreases p.len(),
{
    let k = p[0] as int;
    let q = p.drop_first();
    if q.len() > 0 {
        lemma_set_node_at(children_of(a[k]), children_of(b[k]), q, v);
    }
}

proof fn lemma_same_file_count(a: Seq<SampleNode>, b: Seq<SampleNode>)
    requires
        same_nodes(a, b),
    ensures
        file_count(a) == file_count(b),
    decreases a.len(),
{
    if a.len() > 0 {
        lemma_same_file_count(a.drop_last(), b.drop_last());
        assert(same_node(a.last(), b.last()));
        lemma_same_kind(a.last(), b.last());
    }
}

proof fn lemma_same_kind(x: SampleNode, y: SampleNode)
    requires
        same_head(x, y),
    ensures
        x is File <==> y is File,
        x is Folder <==> y is Folder,
        x is Root <==> y is Root,
        expanded_of(x) == expanded_of(y),
        kind_of(x) == kind_of(y),
        label_of(x) == label_of(y),
{
    match x {
        SampleNode::Root { .. } => {},
        SampleNode::Folder { .. } => {},
        SampleNode::File { .. } => {},
    }
    match y {
        SampleNode::Root { .. } => {},
        SampleNode::Folder { .. } => {},
        SampleNode::File { .. } => {},
    }
}

/// The same nodes show the same lines, with the same paths.
proof fn lemma_same_node_lines(
    x: SampleNode,
    y: SampleNode,
    depth: int,
    parent: Seq<char>,
    idx: int,
    dflt: bool,
)
    requires
        same_node(x, y),
    ensures
        flat_node(x, depth, parent, idx, dflt) == flat_node(y, depth, parent, idx, dflt),
        paths_node(x) == paths_node(y),
    decreases x, 1int,
{
    match x {
        SampleNode::Root { label, children, .. } => {
            lemma_same_seq_lines(children@, children_of(y), depth + 1, label@, dflt);
        },
        SampleNode::Folder { name, children, .. } => {
            lemma_same_seq_lines(children@, children_of(y), depth + 1, name@, dflt);
        },
        SampleNode::File { .. } => {},
    }
    match y {
        SampleNode::Root { .. } => {},
        SampleNode::Folder { .. } => {},
        SampleNode::File { .. } => {},
    }
}

proof fn lemma_same_seq_lines(
    a: Seq<SampleNode>,
    b: Seq<SampleNode>,
    depth: int,
    parent: Seq<char>,
    dflt: bool,
)
    requires
        same_nodes(a, b),
    ensures
        flat_seq(a, depth, parent, dflt) == flat_seq(b, depth, parent, dflt),
        paths_seq(a) == paths_seq(b),
    decreases a, 0int,
{
    if a.len() > 0 {
        lemma_same_seq_lines(a.drop_last(), b.drop_last(), depth, parent, dflt);
        lemma_same_file_count(a.drop_last(), b.drop_last());
        let idx = if a.last() is File {
            file_count(a.drop_last()) as int
        } else {
            0
        };
        lemma_same_node_lines(a.last(), b.last(), depth, parent, idx, dflt);
        assert(same_node(a.last(), b.last()));
        lemma_same_kind(a.last(), b.last());
    }
}

proof fn lemma_same_roots_lines(a: Seq<SampleNode>, b: Seq<SampleNode>, dc: int)
    requires
        same_nodes(a, b),
    ensures
        flat_roots(a, dc) == flat_roots(b, dc),
        paths_seq(a) == paths_seq(b),
    decreases a.len(),
{
    lemma_same_seq_lines(a, b, 0, Seq::empty(), false);
    if a.len() > 0 {
        lemma_same_roots_lines(a.drop_last(), b.drop_last(), dc);
        lemma_same_node_lines(a.last(), b.last(), 0, Seq::empty(), 0, a.len() - 1 < dc);
    }
}

/// Changing the flag of the node a line shows keeps that line where it is: lines before it
/// do not move.
proof fn lemma_set_keeps_line_seq(
    a: Seq<SampleNode>,
    b: Seq<SampleNode>,
    p: Seq<usize>,
    v: bool,
    i: int,
)
    requires
        set_rel(a, b, p, v),
        0 <= i < paths_seq(a).len(),
        paths_seq(a)[i] == p,
        a.len() <= usize::MAX,
    ensures
        i < paths_seq(b).len(),
        paths_seq(b)[i] == p,
    decreases a, 0int,
{
    let n = a.len() - 1;
    let big_l = n as usize;
    let da = a.drop_last();
    let db = b.drop_last();
    assert(paths_seq(a) == paths_seq(da) + paths_node(a.last()).map_values(
        |q: Seq<usize>| seq![big_l] + q,
    ));
    assert(paths_seq(b) == paths_seq(db) + paths_node(b.last()).map_values(
        |q: Seq<usize>| seq![big_l] + q,
    ));
    if i < paths_seq(da).len() {
        lemma_line_seq(da, 0, Seq::empty(), false, i);
        assert(p == paths_seq(da)[i]);
        let k = p[0] as int;
        assert(k < n);
        assert forall|j: int| 0 <= j < da.len() && j != k implies #[trigger] db[j] == da[j] by {
            assert(b[j] == a[j]);
        }
        assert(da[k] == a[k] && db[k] == b[k]);
        assert(set_rel(da, db, p, v));
        lemma_set_keeps_line_seq(da, db, p, v, i);
        assert(paths_seq(b)[i] == paths_seq(db)[i]);
    } else {
        let j = i - paths_seq(da).len();
        let q = paths_node(a.last())[j];
        assert(p == seq![big_l] + q);
        assert(p[0] == big_l);
        assert(p.drop_first() =~= q);
        assert forall|t: int| 0 <= t < da.len() implies #[trigger] db[t] == da[t] by {
            assert(b[t] == a[t]);
        }
        assert(da =~= db);
        assert(a.last() == a[n] && b.last() == b[n]);
        lemma_set_keeps_line_node(a.last(), b.last(), q, v, j);
        assert(paths_seq(b)[i] == seq![big_l] + paths_node(b.last())[j]);
    }
}

proof fn lemma_set_keeps_line_node(x: SampleNode, y: SampleNode, q: Seq<usize>, v: bool, j: int)
    requires
        node_rel(x, y, q, v),
        0 <= j < paths_node(x).len(),
        paths_node(x)[j] == q,
    ensures
        j < paths_node(y).len(),
        paths_node(y)[j] == q,
    decreases x, 1int,
{
    if j > 0 {
        match x {
            SampleNode::Root { children, .. } => {
                assert(children@.len() == children.len());
                lemma_line_seq(children@, 0, Seq::empty(), false, j - 1);
                lemma_set_keeps_line_seq(children@, children_of(y), q, v, j - 1);
            },
            SampleNode::Folder { children, .. } => {
                assert(children@.len() == children.len());
                lemma_line_seq(children@, 0, Seq::empty(), false, j - 1);
                lemma_set_keeps_line_seq(children@, children_of(y), q, v, j - 1);
            },
            SampleNode::File { .. } => {},
        }
        lemma_same_kind(x, y);
        match y {
            SampleNode::Root { .. } => {},
            SampleNode::Folder { .. } => {},
            SampleNode::File { .. } => {},
        }
    } else {
        match y {
            SampleNode::Root { .. } => {},
            SampleNode::Folder { .. } => {},
            SampleNode::File { .. } => {},
        }
    }
}

/// Toggling the same line twice while browsing the whole tree (no search running) gives
/// back the tree, its lines and the cursor: the second toggle undoes the first. The scroll
/// offset ends kept at or above the cursor.
pub proof fn lemma_toggle_twice(v0: BrowserView, v1: BrowserView, v2: BrowserView)
    requires
        v0.filter is None,
        v0.entries == expected_lines(v0.tree, v0.filter),
        0 <= v0.cursor,
        v0.cursor < v0.entries.len() || v0.cursor == 0,
        toggled(v0, v1),
        toggled(v1, v2),
    ensures
        same_nodes(v0.tree.roots(), v2.tree.roots()),
        v2.tree.default_count() == v0.tree.default_count(),
        v2.tree.lines() == v0.tree.lines(),
        v2.tree.line_paths() == v0.tree.line_paths(),
        v2.entries == v0.entries,
        v2.cursor == v0.cursor,
        v2.scroll_offset == clamped_offset(v0.scroll_offset, v0.cursor, v0.entries.len() as int),
        v2.filter == v0.filter,
        v2.search_query == v0.search_query,
{
    let a = v0.tree.roots();
    let b = v1.tree.roots();
    let d = v2.tree.roots();
    let dc = v0.tree.default_count();
    let c = v0.cursor;
    v0.tree.lemma_roots_len();
    v1.tree.lemma_roots_len();
    lemma_flat_roots_len(a, dc);
    match toggle_target(v0) {
        Some(p) => {
            let val = toggled_value(v0);
            assert(p == paths_seq(a)[c]);
            lemma_set_keeps_line_seq(a, b, p, val, c);
            lemma_flat_roots_len(b, dc);
            assert(v1.cursor == c);
            lemma_set_node_at(a, b, p, val);
            assert(toggle_target(v1) == Some(p));
            assert(toggled_value(v1) == !val);
            lemma_set_twice(a, b, d, p, val, !val);
            lemma_set_own_seq(a, d, p);
        },
        None => {
            assert(b == a);
            assert(v1.cursor == c);
            assert(toggle_target(v1) is None);
            lemma_same_nodes_refl(a);
        },
    }
    lemma_same_roots_lines(a, d, dc);
    lemma_flat_roots_len(d, dc);
}

/// Moving down keeps the cursor inside the window of `h` lines: from a cursor on a line and
/// at or below the top of the window, the cursor does not go up, stays on a line, and ends
/// inside the window.
pub proof fn lemma_move_down_in_window(v: BrowserView, n: int, h: int)
    requires
        0 <= n,
        1 <= h,
        0 <= v.scroll_offset <= v.cursor < v.entries.len(),
    ensures
        ({
            let w = moved_down(v, n, h);
            &&& v.cursor <= w.cursor < w.entries.len()
            &&& w.scroll_offset <= w.cursor < w.scroll_offset + h
        }),
{
}

/// Moving up `n` lines and then down `n` lines comes back to the same line, when the cursor
/// was at least `n` lines down.
pub proof fn lemma_up_then_down(v: BrowserView, n: int, h: int)
    requires
        0 <= n <= v.cursor < v.entries.len(),
    ensures
        moved_down(moved_up(v, n), n, h).cursor == v.cursor,
{
}

/// The lines on display are those of the tree under the current filter.
pub open spec fn lines_follow(v: BrowserView) -> bool {
    v.entries == expected_lines(v.tree, v.filter)
}

/// `w` is browser `v` after one of its operations: a move up or down, a toggle, a collapse,
/// a search update with some scores, clearing the search or the filter, a click that puts
/// the cursor on a line, scrolling, or typing in the search field.
pub open spec fn browser_step(v: BrowserView, w: BrowserView) -> bool {
    ||| exists|n: int| w == #[trigger] moved_up(v, n)
    ||| exists|n: int, h: int| w == #[trigger] moved_down(v, n, h)
    ||| toggled(v, w)
    ||| collapsed(v, w)
    ||| exists|scores: Seq<Option<i32>>|
        w == (BrowserView {
            cursor: 0,
            scroll_offset: 0,
            filter: #[trigger] search_filter(v.tree, v.search_query, scores),
            entries: expected_lines(v.tree, search_filter(v.tree, v.search_query, scores)),
            ..v
        })
    ||| w == search_cleared(v)
    ||| w == (BrowserView { cursor: w.cursor, ..v })
    ||| w == (BrowserView { scroll_offset: w.scroll_offset, ..v })
    ||| w == (BrowserView { search_query: w.search_query, ..v })
}

proof fn lemma_step_keeps_lines(v: BrowserView, w: BrowserView)
    requires
        lines_follow(v),
        browser_step(v, w),
    ensures
        lines_follow(w),
{
    if exists|n: int| w == #[trigger] moved_up(v, n) {
    } else if exists|n: int, h: int| w == #[trigger] moved_down(v, n, h) {
        let (n, h) = choose|n: int, h: int| w == #[trigger] moved_down(v, n, h);
        assert(w.tree == v.tree && w.filter == v.filter && w.entries == v.entries);
    } else if collapsed(v, w) {
    }
}

/// Whatever operations a browser goes through, the lines on display follow the tree and the
/// filter, as they do when it is made.
pub proof fn lemma_lines_follow(trace: Seq<BrowserView>)
    requires
        trace.len() > 0,
        lines_follow(trace[0]),
        forall|i: int| 0 < i < trace.len() ==> browser_step(trace[i - 1], #[trigger] trace[i]),
    ensures
        forall|i: int| 0 <= i < trace.len() ==> lines_follow(#[trigger] trace[i]),
    decreases trace.len(),
{
    if trace.len() > 1 {
        let t = trace.drop_last();
        assert forall|i: int| 0 < i < t.len() implies browser_step(t[i - 1], #[trigger] t[i]) by {
            assert(browser_step(trace[i - 1], trace[i]));
        }
        lemma_lines_follow(t);
        let k = trace.len() - 1;
        assert(browser_step(trace[k - 1], trace[k]));
        assert(lines_follow(t[k - 1]));
        lemma_step_keeps_lines(trace[k - 1], trace[k]);
        assert forall|i: int| 0 <= i < trace.len() implies lines_follow(#[trigger] trace[i]) by {
            if i < k {
                assert(lines_follow(t[i]));
            }
        }
    }
}

} // verus!
