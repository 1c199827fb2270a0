use vstd::prelude::*;

verus! {

/// What one visible line of the sample browser shows.
#[derive(Clone, Copy, PartialEq, Eq, Debug)]
pub enum TreeLineKind {
    Root { expanded: bool },
    Folder { expanded: bool },
    File,
}

/// One visible line of the flattened sample tree.
#[derive(Clone, Debug)]
pub struct TreeLine {
    pub depth: u8,
    pub kind: TreeLineKind,
    pub label: String,
    pub folder: String,
    pub index: usize,
    pub is_default: bool,
}

/// Mathematical model of a [`TreeLine`].
pub struct LineV {
    pub depth: int,
    pub kind: TreeLineKind,
    pub label: Seq<char>,
    pub folder: Seq<char>,
    pub index: int,
    pub is_default: bool,
}

impl View for TreeLine {
    type V = LineV;

    open spec fn view(&self) -> LineV {
        LineV {
            depth: self.depth as int,
            kind: self.kind,
            label: self.label@,
            folder: self.folder@,
            index: self.index as int,
            is_default: self.is_default,
        }
    }
}

/// The model of a list of lines.
pub open spec fn lines_view(v: Seq<TreeLine>) -> Seq<LineV> {
    v.map_values(|l: TreeLine| l@)
}

/// A node of the sample tree: a library root, a folder of samples, or a sample file.
#[derive(Debug)]
pub enum SampleNode {
    Root { label: String, children: Vec<SampleNode>, expanded: bool },
    Folder { name: String, children: Vec<SampleNode>, expanded: bool },
    File { name: String },
}

pub open spec fn expanded_of(n: SampleNode) -> bool {
    match n {
        SampleNode::Root { expanded, .. } => expanded,
        SampleNode::Folder { expanded, .. } => expanded,
        SampleNode::File { .. } => false,
    }
}

pub open spec fn children_of(n: SampleNode) -> Seq<SampleNode> {
    match n {
        SampleNode::Root { children, .. } => children@,
        SampleNode::Folder { children, .. } => children@,
        SampleNode::File { .. } => Seq::empty(),
    }
}

pub open spec fn label_of(n: SampleNode) -> Seq<char> {
    match n {
        SampleNode::Root { label, .. } => label@,
        SampleNode::Folder { name, .. } => name@,
        SampleNode::File { name } => name@,
    }
}

pub open spec fn kind_of(n: SampleNode) -> TreeLineKind {
    match n {
        SampleNode::Root { expanded, .. } => TreeLineKind::Root { expanded },
        SampleNode::Folder { expanded, .. } => TreeLineKind::Folder { expanded },
        SampleNode::File { .. } => TreeLineKind::File,
    }
}

/// Number of file nodes among `cs`.
pub open spec fn file_count(cs: Seq<SampleNode>) -> nat
    decreases cs.len(),
{
    if cs.len() == 0 {
        0
    } else {
        file_count(cs.drop_last()) + if cs.last() is File { 1nat } else { 0nat }
    }
}

/// The lines shown for node `n` and, when it is expanded, everything below it.
pub open spec fn flat_node(
    n: SampleNode,
    depth: int,
    parent: Seq<char>,
    idx: int,
    dflt: bool,
) -> Seq<LineV>
    decreases n, 1int,
{
    seq![
        LineV {
            depth,
            kind: kind_of(n),
            label: label_of(n),
            folder: parent,
            index: idx,
            is_default: dflt,
        },
    ] + if expanded_of(n) {
        match n {
            SampleNode::Root { label, children, .. } => flat_seq(children@, depth + 1, label@, dflt),
            SampleNode::Folder { name, children, .. } => flat_seq(children@, depth + 1, name@, dflt),
            SampleNode::File { .. } => Seq::empty(),
        }
    } else {
        Seq::empty()
    }
}

/// The lines shown for a list of sibling nodes below a parent named `parent`.
/// A file line carries its position among the file siblings; other lines carry 0.
pub open spec fn flat_seq(cs: Seq<SampleNode>, depth: int, parent: Seq<char>, dflt: bool) -> Seq<
    LineV,
>
    decreases cs, 0int,
{
    if cs.len() == 0 {
        Seq::empty()
    } else {
        flat_seq(cs.drop_last(), depth, parent, dflt) + flat_node(
            cs.last(),
            depth,
            parent,
            if cs.last() is File {
                file_count(cs.drop_last()) as int
            } else {
                0
            },
            dflt,
        )
    }
}


/// Every file node below `cs` is a plain file.
pub open spec fn files_only(cs: Seq<SampleNode>) -> bool {
    forall|i: int| 0 <= i < cs.len() ==> #[trigger] cs[i] is File
}

/// The shape that scanning produces: a root holds folders of files and files;
/// a folder holds files only.
pub open spec fn node_wf(n: SampleNode) -> bool {
    match n {
        SampleNode::Root { children, .. } => forall|i: int|
            0 <= i < children@.len() ==> {
                let c = #[trigger] children@[i];
                c is File || (c is Folder && files_only(children_of(c)))
            },
        SampleNode::Folder { children, .. } => files_only(children@),
        SampleNode::File { .. } => true,
    }
}

/// How many levels can lie below a well-formed node.
pub open spec fn levels(n: SampleNode) -> int {
    match n {
        SampleNode::Root { .. } => 2,
        SampleNode::Folder { .. } => 1,
        SampleNode::File { .. } => 0,
    }
}

pub open spec fn with_expanded(n: SampleNode, val: bool) -> SampleNode {
    match n {
        SampleNode::Root { label, children, .. } => SampleNode::Root { label, children, expanded: val },
        SampleNode::Folder { name, children, .. } => SampleNode::Folder { name, children, expanded: val },
        SampleNode::File { name } => SampleNode::File { name },
    }
}

pub proof fn lemma_file_count_le(cs: Seq<SampleNode>)
    ensures
        file_count(cs) <= cs.len(),
    decreases cs.len(),
{
    if cs.len() > 0 {
        lemma_file_count_le(cs.drop_last());
    }
}

impl SampleNode {
    pub fn expanded(&self) -> (r: bool)
        ensures
            r == expanded_of(*self),
    {
        match self {
            SampleNode::Root { expanded, .. } => *expanded,
            SampleNode::Folder { expanded, .. } => *expanded,
            SampleNode::File { .. } => false,
        }
    }

    pub fn set_expanded(&mut self, val: bool)
        ensures
            *final(self) == with_expanded(*old(self), val),
    {
        match self {
            SampleNode::Root { expanded, .. } => {
                *expanded = val;
            },
            SampleNode::Folder { expanded, .. } => {
                *expanded = val;
            },
            SampleNode::File { .. } => {},
        }
    }

    pub fn is_expandable(&self) -> (r: bool)
        ensures
            r == !(*self is File),
    {
        !matches!(self, SampleNode::File { .. })
    }

    pub fn label(&self) -> (r: &str)
        ensures
            r@ == label_of(*self),
    {
        match self {
            SampleNode::Root { label, .. } => label.as_str(),
            SampleNode::Folder { name, .. } => name.as_str(),
            SampleNode::File { name } => name.as_str(),
        }
    }

    /// Appends the lines of this node (and of its visible descendants) to `out`.
    pub fn flatten(
        &self,
        depth: u8,
        parent_folder: &str,
        file_index: usize,
        is_default: bool,
        out: &mut Vec<TreeLine>,
    )
        requires
            node_wf(*self),
            depth + levels(*self) <= 255,
        ensures
            lines_view(final(out)@) == lines_view(old(out)@) + flat_node(
                *self,
                depth as int,
                parent_folder@,
                file_index as int,
                is_default,
            ),
        decreases *self, 1int,
    {
        let kind = match self {
            SampleNode::Root { expanded, .. } => TreeLineKind::Root { expanded: *expanded },
            SampleNode::Folder { expanded, .. } => TreeLineKind::Folder { expanded: *expanded },
            SampleNode::File { .. } => TreeLineKind::File,
        };
        let ghost before = out@;
        out.push(
            TreeLine {
                depth,
                kind,
                label: self.label().to_string(),
                folder: parent_folder.to_string(),
                index: file_index,
                is_default,
            },
        );
        proof {
            assert(lines_view(out@) =~= lines_view(before) + flat_node(
                *self,
                depth as int,
                parent_folder@,
                file_index as int,
                is_default,
            ).take(1));
        }
        if self.expanded() {
            let folder_name = self.label();
            match self {
                SampleNode::Root { children, .. } => {
                    Self::flatten_children(children, depth + 1, folder_name, is_default, out);
                },
                SampleNode::Folder { children, .. } => {
                    Self::flatten_children(children, depth + 1, folder_name, is_default, out);
                },
                SampleNode::File { .. } => {},
            }
        }
        proof {
            assert(lines_view(out@) =~= lines_view(before) + flat_node(
                *self,
                depth as int,
                parent_folder@,
                file_index as int,
                is_default,
            ));
        }
    }

    fn flatten_children(
        children: &Vec<SampleNode>,
        depth: u8,
        folder_name: &str,
        is_default: bool,
        out: &mut Vec<TreeLine>,
    )
        requires
            forall|i: int|
                0 <= i < children@.len() ==> node_wf(#[trigger] children@[i]) && depth + levels(
                    children@[i],
                ) <= 255,
        ensures
            lines_view(final(out)@) == lines_view(old(out)@) + flat_seq(
                children@,
                depth as int,
                folder_name@,
                is_default,
            ),
        decreases children, 0int,
    {
        let ghost before = out@;
        let mut idx: usize = 0;
        let mut j: usize = 0;
        while j < children.len()
            invariant
                j <= children@.len(),
                forall|i: int|
                    0 <= i < children@.len() ==> node_wf(#[trigger] children@[i]) && depth
                        + levels(children@[i]) <= 255,
                idx == file_count(children@.take(j as int)),
                lines_view(out@) == lines_view(before) + flat_seq(
                    children@.take(j as int),
                    depth as int,
                    folder_name@,
                    is_default,
                ),
            decreases children@.len() - j,
        {
            let child = &children[j];
            proof {
                lemma_file_count_le(children@.take(j as int));
                assert(children@.take(j as int + 1).drop_last() =~= children@.take(j as int));
            }
            let child_idx = if matches!(child, SampleNode::File { .. }) {
                let i = idx;
                idx += 1;
                i
            } else {
                0
            };
            child.flatten(depth, folder_name, child_idx, is_default, out);
            j += 1;
        }
        proof {
            assert(children@.take(j as int) =~= children@);
        }
    }
}


/// Paths (child indices from the node itself) of the lines of `flat_node(n, ..)`, in the same order.
pub open spec fn paths_node(n: SampleNode) -> Seq<Seq<usize>>
    decreases n, 1int,
{
    seq![Seq::<usize>::empty()] + if expanded_of(n) {
        match n {
            SampleNode::Root { children, .. } => paths_seq(children@),
            SampleNode::Folder { children, .. } => paths_seq(children@),
            SampleNode::File { .. } => Seq::empty(),
        }
    } else {
        Seq::empty()
    }
}

/// Paths (starting with the sibling index) of the lines of `flat_seq(cs, ..)`, in the same order.
pub open spec fn paths_seq(cs: Seq<SampleNode>) -> Seq<Seq<usize>>
    decreases cs, 0int,
{
    if cs.len() == 0 {
        Seq::empty()
    } else {
        paths_seq(cs.drop_last()) + paths_node(cs.last()).map_values(
            |p: Seq<usize>| seq![(cs.len() - 1) as usize] + p,
        )
    }
}

/// `p` leads from the sibling list `cs` to an existing node.
pub open spec fn valid_path(cs: Seq<SampleNode>, p: Seq<usize>) -> bool
    decreases p.len(),
{
    &&& p.len() >= 1
    &&& p[0] < cs.len()
    &&& p.len() > 1 ==> valid_path(children_of(cs[p[0] as int]), p.drop_first())
}

/// The node that path `p` leads to from the sibling list `cs`.
pub open spec fn node_at(cs: Seq<SampleNode>, p: Seq<usize>) -> SampleNode
    decreases p.len(),
{
    if p.len() <= 1 {
        cs[p[0] as int]
    } else {
        node_at(children_of(cs[p[0] as int]), p.drop_first())
    }
}

/// `a` and `b` are the same kind of node with the same name and expansion flag.
pub open spec fn same_head(a: SampleNode, b: SampleNode) -> bool {
    match (a, b) {
        (
            SampleNode::Root { label: l1, expanded: e1, .. },
            SampleNode::Root { label: l2, expanded: e2, .. },
        ) => l1@ == l2@ && e1 == e2,
        (
            SampleNode::Folder { name: l1, expanded: e1, .. },
            SampleNode::Folder { name: l2, expanded: e2, .. },
        ) => l1@ == l2@ && e1 == e2,
        (SampleNode::File { name: l1 }, SampleNode::File { name: l2 }) => l1@ == l2@,
        _ => false,
    }
}

/// `new` is `old` with the expansion flag of the node at path `p` set to `val`,
/// and nothing else changed.
pub open spec fn set_rel(old: Seq<SampleNode>, new: Seq<SampleNode>, p: Seq<usize>, val: bool) -> bool
    decreases p.len(), 1int,
{
    &&& p.len() >= 1
    &&& p[0] < old.len()
    &&& new.len() == old.len()
    &&& forall|i: int| 0 <= i < old.len() && i != p[0] ==> #[trigger] new[i] == old[i]
    &&& node_rel(old[p[0] as int], new[p[0] as int], p.drop_first(), val)
}

/// `b` is node `a` with the expansion flag of the node at path `q` below it set to `val`
/// (of `a` itself when `q` is empty), and nothing else changed.
pub open spec fn node_rel(a: SampleNode, b: SampleNode, q: Seq<usize>, val: bool) -> bool
    decreases q.len(), 2int,
{
    if q.len() == 0 {
        b == with_expanded(a, val)
    } else {
        &&& same_head(a, b)
        &&& set_rel(children_of(a), children_of(b), q, val)
    }
}

/// Same kinds of nodes, position by position, with the same file-only folders.
pub open spec fn same_shape(a: Seq<SampleNode>, b: Seq<SampleNode>) -> bool {
    &&& a.len() == b.len()
    &&& forall|i: int|
        0 <= i < a.len() ==> {
            &&& (#[trigger] a[i] is File) == (b[i] is File)
            &&& (a[i] is Folder) == (b[i] is Folder)
            &&& (a[i] is Root) == (b[i] is Root)
            &&& files_only(children_of(a[i])) ==> files_only(children_of(b[i]))
            &&& node_wf(a[i]) ==> node_wf(b[i])
        }
}

pub proof fn lemma_paths_len(n: SampleNode)
    ensures
        forall|depth: int, parent: Seq<char>, idx: int, dflt: bool|
            #[trigger] flat_node(n, depth, parent, idx, dflt).len() == paths_node(n).len(),
    decreases n, 1int,
{
    match n {
        SampleNode::Root { children, .. } => lemma_paths_len_seq(children@),
        SampleNode::Folder { children, .. } => lemma_paths_len_seq(children@),
        SampleNode::File { .. } => {},
    }
    assert forall|depth: int, parent: Seq<char>, idx: int, dflt: bool|
        #[trigger] flat_node(n, depth, parent, idx, dflt).len() == paths_node(n).len() by {
        match n {
            SampleNode::Root { label, children, .. } => {
                assert(flat_seq(children@, depth + 1, label@, dflt).len() == paths_seq(children@).len());
            },
            SampleNode::Folder { name, children, .. } => {
                assert(flat_seq(children@, depth + 1, name@, dflt).len() == paths_seq(children@).len());
            },
            SampleNode::File { .. } => {},
        }
    }
}

pub proof fn lemma_paths_len_seq(cs: Seq<SampleNode>)
    ensures
        forall|depth: int, parent: Seq<char>, dflt: bool|
            #[trigger] flat_seq(cs, depth, parent, dflt).len() == paths_seq(cs).len(),
    decreases cs, 0int,
{
    if cs.len() > 0 {
        lemma_paths_len_seq(cs.drop_last());
        lemma_paths_len(cs.last());
        assert forall|depth: int, parent: Seq<char>, dflt: bool|
            #[trigger] flat_seq(cs, depth, parent, dflt).len() == paths_seq(cs).len() by {
            let idx = if cs.last() is File { file_count(cs.drop_last()) as int } else { 0 };
            assert(flat_seq(cs.drop_last(), depth, parent, dflt).len() == paths_seq(cs.drop_last()).len());
            assert(flat_node(cs.last(), depth, parent, idx, dflt).len() == paths_node(cs.last()).len());
        }
    }
}

/// Setting a flag keeps the kinds of all nodes and the well-formedness of the tree.
pub proof fn lemma_set_rel_shape(old: Seq<SampleNode>, new: Seq<SampleNode>, p: Seq<usize>, val: bool)
    requires
        set_rel(old, new, p, val),
    ensures
        same_shape(old, new),
    decreases p.len(),
{
    let k = p[0] as int;
    if p.len() > 1 {
        lemma_set_rel_shape(children_of(old[k]), children_of(new[k]), p.drop_first(), val);
        let oc = children_of(old[k]);
        let nc = children_of(new[k]);
        if files_only(oc) {
            assert forall|i: int| 0 <= i < nc.len() implies #[trigger] nc[i] is File by {
                assert(oc[i] is File);
            }
        }
        if node_wf(old[k]) {
            if old[k] is Root {
                assert forall|i: int| 0 <= i < nc.len() implies {
                    let c = #[trigger] nc[i];
                    c is File || (c is Folder && files_only(children_of(c)))
                } by {
                    let c0 = oc[i];
                    assert(c0 is File || (c0 is Folder && files_only(children_of(c0))));
                }
            }
        }
    }
    assert forall|i: int| 0 <= i < old.len() implies {
        &&& (#[trigger] old[i] is File) == (new[i] is File)
        &&& (old[i] is Folder) == (new[i] is Folder)
        &&& (old[i] is Root) == (new[i] is Root)
        &&& files_only(children_of(old[i])) ==> files_only(children_of(new[i]))
        &&& node_wf(old[i]) ==> node_wf(new[i])
    } by {
        if i != k {
            assert(new[i] == old[i]);
        }
    }
}

/// The lines of all roots; the first `dc` roots are the default library.
pub open spec fn flat_roots(rs: Seq<SampleNode>, dc: int) -> Seq<LineV>
    decreases rs.len(),
{
    if rs.len() == 0 {
        Seq::empty()
    } else {
        flat_roots(rs.drop_last(), dc) + flat_node(
            rs.last(),
            0,
            Seq::empty(),
            0,
            rs.len() - 1 < dc,
        )
    }
}

pub proof fn lemma_flat_roots_len(rs: Seq<SampleNode>, dc: int)
    ensures
        flat_roots(rs, dc).len() == paths_seq(rs).len(),
    decreases rs.len(),
{
    if rs.len() > 0 {
        lemma_flat_roots_len(rs.drop_last(), dc);
        lemma_paths_len(rs.last());
        assert(flat_node(rs.last(), 0, Seq::empty(), 0, rs.len() - 1 < dc).len() == paths_node(
            rs.last(),
        ).len());
    }
}

/// Finds the path of the line at position `target`, counting lines from `*count`.
fn walk(node: &SampleNode, target: usize, count: &mut usize, path: &mut Vec<usize>) -> (found:
    bool)
    requires
        *old(count) <= target,
    ensures
        found == (target < *old(count) + paths_node(*node).len()),
        found ==> final(path)@ == old(path)@ + paths_node(*node)[target - *old(count)],
        !found ==> final(path)@ == old(path)@ && *final(count) == *old(count) + paths_node(
            *node,
        ).len(),
    decreases *node, 1int,
{
    if *count == target {
        proof {
            assert(old(path)@ + paths_node(*node)[0] =~= old(path)@);
        }
        return true;
    }
    *count += 1;
    if node.expanded() {
        match node {
            SampleNode::Root { children, .. } => {
                return walk_children(children, target, count, path);
            },
            SampleNode::Folder { children, .. } => {
                return walk_children(children, target, count, path);
            },
            SampleNode::File { .. } => {},
        }
    }
    false
}

/// Finds the path of the line at position `target` among the lines of a sibling list.
fn walk_children(
    children: &Vec<SampleNode>,
    target: usize,
    count: &mut usize,
    path: &mut Vec<usize>,
) -> (found: bool)
    requires
        *old(count) <= target,
    ensures
        found == (target < *old(count) + paths_seq(children@).len()),
        found ==> final(path)@ == old(path)@ + paths_seq(children@)[target - *old(count)],
        !found ==> final(path)@ == old(path)@ && *final(count) == *old(count) + paths_seq(
            children@,
        ).len(),
    decreases children, 0int,
{
    let ghost c0 = *count;
    let ghost p0 = path@;
    let mut j: usize = 0;
    while j < children.len()
        invariant
            j <= children@.len(),
            *count == c0 + paths_seq(children@.take(j as int)).len(),
            *count <= target,
            path@ == p0,
            c0 == *old(count),
            p0 == old(path)@,
        decreases children@.len() - j,
    {
        let ghost cb = *count;
        proof {
            assert(children@.take(j as int + 1).drop_last() =~= children@.take(j as int));
        }
        path.push(j);
        if walk(&children[j], target, count, path) {
            proof {
                let pre = paths_seq(children@.take(j as int));
                let sub = paths_node(children@[j as int]);
                let all = paths_seq(children@.take(j as int + 1));
                assert(all =~= pre + sub.map_values(|p: Seq<usize>| seq![j] + p));
                assert(all[target - c0] == seq![j] + sub[target - cb]);
                let ghost whole = paths_seq(children@);
                lemma_paths_seq_prefix(children@, j as int + 1);
                assert(all.len() == pre.len() + sub.len());
                assert(target - c0 < all.len());
                assert(all[target - c0] == whole[target - c0]);
                assert(path@ =~= p0 + whole[target - c0]);
                assert(target < c0 + whole.len());
            }
            return true;
        }
        path.pop();
        proof {
            assert(path@ =~= p0);
        }
        j += 1;
    }
    proof {
        assert(children@.take(j as int) =~= children@);
    }
    false
}

/// The paths of a prefix of a sibling list are a prefix of its paths.
pub proof fn lemma_paths_seq_prefix(cs: Seq<SampleNode>, k: int)
    requires
        0 <= k <= cs.len(),
    ensures
        paths_seq(cs.take(k)).len() <= paths_seq(cs).len(),
        forall|i: int|
            0 <= i < paths_seq(cs.take(k)).len() ==> #[trigger] paths_seq(cs.take(k))[i]
                == paths_seq(cs)[i],
    decreases cs.len() - k,
{
    if k < cs.len() {
        lemma_paths_seq_prefix(cs, k + 1);
        let a = cs.take(k + 1);
        assert(a.drop_last() =~= cs.take(k));
        assert(paths_seq(a) == paths_seq(cs.take(k)) + paths_node(a.last()).map_values(
            |p: Seq<usize>| seq![(a.len() - 1) as usize] + p,
        ));
        assert forall|i: int| 0 <= i < paths_seq(cs.take(k)).len() implies #[trigger] paths_seq(
            cs.take(k),
        )[i] == paths_seq(cs)[i] by {
            assert(paths_seq(cs.take(k))[i] == paths_seq(a)[i]);
        }
    } else {
        assert(cs.take(k) =~= cs);
    }
}

/// Sets the expansion flag of the node at `path[k..]` below the sibling list `nodes`.
fn set_in(nodes: &mut Vec<SampleNode>, path: &Vec<usize>, k: usize, val: bool)
    requires
        k < path@.len(),
        valid_path(old(nodes)@, path@.skip(k as int)),
    ensures
        set_rel(old(nodes)@, final(nodes)@, path@.skip(k as int), val),
    decreases path@.len() - k, 0int,
{
    let n = path.len();
    let i = path[k];
    proof {
        assert(path@.skip(k as int)[0] == i);
        assert(path@.skip(k as int).drop_first() =~= path@.skip(k as int + 1));
    }
    assert(k < n);
    set_in_node(&mut nodes[i], path, k + 1, val);
}

/// Sets the expansion flag of the node at `path[k..]` below `node` (of `node` itself
/// when `k` is the end of the path).
fn set_in_node(node: &mut SampleNode, path: &Vec<usize>, k: usize, val: bool)
    requires
        k <= path@.len(),
        k < path@.len() ==> valid_path(children_of(*old(node)), path@.skip(k as int)),
    ensures
        node_rel(*old(node), *final(node), path@.skip(k as int), val),
    decreases path@.len() - k, 1int,
{
    if k == path.len() {
        node.set_expanded(val);
    } else {
        match node {
            SampleNode::Root { children, .. } => {
                set_in(children, path, k, val);
            },
            SampleNode::Folder { children, .. } => {
                set_in(children, path, k, val);
            },
            SampleNode::File { .. } => {},
        }
    }
}


/// Lines of the files among `cs`, shown under a matched folder named `folder`.
pub open spec fn file_lines(cs: Seq<SampleNode>, folder: Seq<char>, dflt: bool) -> Seq<LineV>
    decreases cs.len(),
{
    if cs.len() == 0 {
        Seq::empty()
    } else {
        file_lines(cs.drop_last(), folder, dflt) + if cs.last() is File {
            seq![
                LineV {
                    depth: 1,
                    kind: TreeLineKind::File,
                    label: label_of(cs.last()),
                    folder,
                    index: file_count(cs.drop_last()) as int,
                    is_default: dflt,
                },
            ]
        } else {
            Seq::empty()
        }
    }
}

/// Lines that a search for folder `target` shows for node `n`: each folder of that name
/// (found in `n` or among the children of a root) with, unless collapsed, its files.
pub open spec fn emit_node(n: SampleNode, target: Seq<char>, collapsed: bool, dflt: bool) -> Seq<
    LineV,
>
    decreases n, 1int,
{
    match n {
        SampleNode::Folder { name, children, expanded } => if name@ == target {
            let show = !collapsed && expanded;
            seq![
                LineV {
                    depth: 0,
                    kind: TreeLineKind::Folder { expanded: show },
                    label: name@,
                    folder: Seq::empty(),
                    index: 0,
                    is_default: dflt,
                },
            ] + if show {
                file_lines(children@, name@, dflt)
            } else {
                Seq::empty()
            }
        } else {
            Seq::empty()
        },
        SampleNode::Root { children, .. } => emit_seq(children@, target, collapsed, dflt),
        SampleNode::File { .. } => Seq::empty(),
    }
}

pub open spec fn emit_seq(cs: Seq<SampleNode>, target: Seq<char>, collapsed: bool, dflt: bool) -> Seq<
    LineV,
>
    decreases cs, 0int,
{
    if cs.len() == 0 {
        Seq::empty()
    } else {
        emit_seq(cs.drop_last(), target, collapsed, dflt) + emit_node(
            cs.last(),
            target,
            collapsed,
            dflt,
        )
    }
}

pub open spec fn emit_roots(rs: Seq<SampleNode>, dc: int, target: Seq<char>, collapsed: bool) -> Seq<
    LineV,
>
    decreases rs.len(),
{
    if rs.len() == 0 {
        Seq::empty()
    } else {
        emit_roots(rs.drop_last(), dc, target, collapsed) + emit_node(
            rs.last(),
            target,
            collapsed,
            rs.len() - 1 < dc,
        )
    }
}

proof fn lemma_file_lines(cs: Seq<SampleNode>, folder: Seq<char>, dflt: bool)
    requires
        files_only(cs),
    ensures
        file_lines(cs, folder, dflt).len() == cs.len(),
        file_count(cs) == cs.len(),
        forall|j: int|
            0 <= j < cs.len() ==> #[trigger] file_lines(cs, folder, dflt)[j] == (LineV {
                depth: 1,
                kind: TreeLineKind::File,
                label: label_of(cs[j]),
                folder,
                index: j,
                is_default: dflt,
            }),
    decreases cs.len(),
{
    if cs.len() > 0 {
        let d = cs.drop_last();
        assert forall|i: int| 0 <= i < d.len() implies #[trigger] d[i] is File by {
            assert(cs[i] is File);
        }
        lemma_file_lines(d, folder, dflt);
        assert(cs[cs.len() - 1] is File);
        assert forall|j: int| 0 <= j < cs.len() implies #[trigger] file_lines(cs, folder, dflt)[j]
            == (LineV {
            depth: 1,
            kind: TreeLineKind::File,
            label: label_of(cs[j]),
            folder,
            index: j,
            is_default: dflt,
        }) by {
            if j < d.len() {
                assert(file_lines(cs, folder, dflt)[j] == file_lines(d, folder, dflt)[j]);
                assert(d[j] == cs[j]);
            }
        }
    }
}

/// What a folder search shows for a folder named like the target: its line first, at depth
/// 0. In a search (not collapsed) that line carries the folder's own expansion flag, and an
/// expanded folder is followed by one line per sample, in order, at depth 1 under the
/// folder's name; a folder that is not expanded shows its line alone. A collapsed search
/// shows every such folder closed, without its samples.
pub proof fn lemma_search_shows_folder(n: SampleNode, target: Seq<char>, collapsed: bool, dflt: bool)
    requires
        n is Folder,
        label_of(n) == target,
        files_only(children_of(n)),
    ensures
        ({
            let ls = emit_node(n, target, collapsed, dflt);
            let cs = children_of(n);
            &&& ls.len() >= 1
            &&& ls[0].depth == 0 && ls[0].label == target && ls[0].is_default == dflt
            &&& if collapsed {
                ls.len() == 1 && ls[0].kind == (TreeLineKind::Folder { expanded: false })
            } else if expanded_of(n) {
                &&& ls[0].kind == (TreeLineKind::Folder { expanded: true })
                &&& ls.len() == 1 + cs.len()
                &&& forall|j: int|
                    0 <= j < cs.len() ==> #[trigger] ls[j + 1] == (LineV {
                        depth: 1,
                        kind: TreeLineKind::File,
                        label: label_of(cs[j]),
                        folder: target,
                        index: j,
                        is_default: dflt,
                    })
            } else {
                ls.len() == 1 && ls[0].kind == (TreeLineKind::Folder { expanded: false })
            }
        }),
{
    match n {
        SampleNode::Folder { name, children, expanded } => {
            lemma_file_lines(children@, name@, dflt);
            let ls = emit_node(n, target, collapsed, dflt);
            if !collapsed && expanded {
                assert forall|j: int| 0 <= j < children@.len() implies #[trigger] ls[j + 1]
                    == (LineV {
                    depth: 1,
                    kind: TreeLineKind::File,
                    label: label_of(children@[j]),
                    folder: target,
                    index: j,
                    is_default: dflt,
                }) by {
                    assert(ls[j + 1] == file_lines(children@, name@, dflt)[j]);
                }
            }
        },
        _ => {},
    }
}

/// Lines that a search showing the folders `names` (in that order) displays.
pub open spec fn filtered_lines(
    rs: Seq<SampleNode>,
    dc: int,
    names: Seq<Seq<char>>,
    collapsed: bool,
) -> Seq<LineV>
    decreases names.len(),
{
    if names.len() == 0 {
        Seq::empty()
    } else {
        filtered_lines(rs, dc, names.drop_last(), collapsed) + emit_roots(
            rs,
            dc,
            names.last(),
            collapsed,
        )
    }
}

/// Path (relative to `n`, empty for `n` itself) of the first folder named `name`
/// in pre-order, looking into roots and non-matching folders.
pub open spec fn find_node(n: SampleNode, name: Seq<char>) -> Option<Seq<usize>>
    decreases n, 1int,
{
    match n {
        SampleNode::Folder { name: nm, children, .. } => if nm@ == name {
            Some(Seq::empty())
        } else {
            find_seq(children@, name)
        },
        SampleNode::Root { children, .. } => find_seq(children@, name),
        SampleNode::File { .. } => None,
    }
}

pub open spec fn find_seq(cs: Seq<SampleNode>, name: Seq<char>) -> Option<Seq<usize>>
    decreases cs, 0int,
{
    if cs.len() == 0 {
        None
    } else {
        match find_seq(cs.drop_last(), name) {
            Some(p) => Some(p),
            None => match find_node(cs.last(), name) {
                Some(p) => Some(seq![(cs.len() - 1) as usize] + p),
                None => None,
            },
        }
    }
}

impl SampleNode {
    /// Appends the lines a folder search for `target_name` shows for this node.
    fn emit_filtered(
        &self,
        target_name: &String,
        collapsed: bool,
        is_default: bool,
        out: &mut Vec<TreeLine>,
    )
        ensures
            lines_view(final(out)@) == lines_view(old(out)@) + emit_node(
                *self,
                target_name@,
                collapsed,
                is_default,
            ),
        decreases *self, 1int,
    {
        let ghost before = out@;
        match self {
            SampleNode::Folder { name, children, expanded } => {
                if *name == *target_name {
                    let show_children = !collapsed && *expanded;
                    out.push(
                        TreeLine {
                            depth: 0,
                            kind: TreeLineKind::Folder { expanded: show_children },
                            label: name.clone(),
                            folder: String::new(),
                            index: 0,
                            is_default,
                        },
                    );
                    let ghost mid = out@;
                    proof {
                        assert(lines_view(mid) =~= lines_view(before) + emit_node(
                            *self,
                            target_name@,
                            collapsed,
                            is_default,
                        ).take(1));
                    }
                    if show_children {
                        let mut idx: usize = 0;
                        let mut j: usize = 0;
                        while j < children.len()
                            invariant
                                j <= children@.len(),
                                idx == file_count(children@.take(j as int)),
                                lines_view(out@) == lines_view(mid) + file_lines(
                                    children@.take(j as int),
                                    name@,
                                    is_default,
                                ),
                            decreases children@.len() - j,
                        {
                            proof {
                                lemma_file_count_le(children@.take(j as int));
                                assert(children@.take(j as int + 1).drop_last() =~= children@.take(
                                    j as int,
                                ));
                            }
                            let ghost pre = out@;
                            if let SampleNode::File { name: fname } = &children[j] {
                                out.push(
                                    TreeLine {
                                        depth: 1,
                                        kind: TreeLineKind::File,
                                        label: fname.clone(),
                                        folder: name.clone(),
                                        index: idx,
                                        is_default,
                                    },
                                );
                                idx += 1;
                                proof {
                                    assert(lines_view(out@) =~= lines_view(pre) + seq![out@.last()@]);
                                }
                            }
                            j += 1;
                        }
                        proof {
                            assert(children@.take(j as int) =~= children@);
                        }
                    }
                    proof {
                        assert(lines_view(out@) =~= lines_view(before) + emit_node(
                            *self,
                            target_name@,
                            collapsed,
                            is_default,
                        ));
                    }
                } else {
                    proof {
                        assert(lines_view(out@) =~= lines_view(before) + emit_node(
                            *self,
                            target_name@,
                            collapsed,
                            is_default,
                        ));
                    }
                }
            },
            SampleNode::Root { children, .. } => {
                emit_children(children, target_name, collapsed, is_default, out);
            },
            SampleNode::File { .. } => {
                proof {
                    assert(lines_view(out@) =~= lines_view(before) + emit_node(
                        *self,
                        target_name@,
                        collapsed,
                        is_default,
                    ));
                }
            },
        }
    }

    /// Looks for the first folder named `name` (see [`find_node`]), extending `path` with
    /// the way to it.
    fn find_folder_in(&self, name: &String, path: &mut Vec<usize>) -> (found: bool)
        ensures
            found == find_node(*self, name@) is Some,
            found ==> final(path)@ == old(path)@ + find_node(*self, name@)->0,
            !found ==> final(path)@ == old(path)@,
        decreases *self, 1int,
    {
        match self {
            SampleNode::Folder { name: n, children, .. } => {
                if *n == *name {
                    proof {
                        assert(old(path)@ + Seq::<usize>::empty() =~= old(path)@);
                    }
                    true
                } else {
                    find_in_children(children, name, path)
                }
            },
            SampleNode::Root { children, .. } => find_in_children(children, name, path),
            SampleNode::File { .. } => false,
        }
    }
}

fn emit_children(
    children: &Vec<SampleNode>,
    target_name: &String,
    collapsed: bool,
    is_default: bool,
    out: &mut Vec<TreeLine>,
)
    ensures
        lines_view(final(out)@) == lines_view(old(out)@) + emit_seq(
            children@,
            target_name@,
            collapsed,
            is_default,
        ),
    decreases children, 0int,
{
    let ghost before = out@;
    let mut j: usize = 0;
    while j < children.len()
        invariant
            j <= children@.len(),
            lines_view(out@) == lines_view(before) + emit_seq(
                children@.take(j as int),
                target_name@,
                collapsed,
                is_default,
            ),
        decreases children@.len() - j,
    {
        proof {
            assert(children@.take(j as int + 1).drop_last() =~= children@.take(j as int));
        }
        children[j].emit_filtered(target_name, collapsed, is_default, out);
        j += 1;
    }
    proof {
        assert(children@.take(j as int) =~= children@);
    }
}

fn find_in_children(children: &Vec<SampleNode>, name: &String, path: &mut Vec<usize>) -> (found:
    bool)
    ensures
        found == find_seq(children@, name@) is Some,
        found ==> final(path)@ == old(path)@ + find_seq(children@, name@)->0,
        !found ==> final(path)@ == old(path)@,
    decreases children, 0int,
{
    let ghost p0 = path@;
    let mut j: usize = 0;
    while j < children.len()
        invariant
            j <= children@.len(),
            find_seq(children@.take(j as int), name@) is None,
            path@ == p0,
            p0 == old(path)@,
        decreases children@.len() - j,
    {
        proof {
            assert(children@.take(j as int + 1).drop_last() =~= children@.take(j as int));
        }
        path.push(j);
        if children[j].find_folder_in(name, path) {
            proof {
                lemma_find_seq_prefix(children@, j as int + 1, name@);
                assert(path@ =~= p0 + find_seq(children@.take(j as int + 1), name@)->0);
            }
            return true;
        }
        path.pop();
        proof {
            assert(path@ =~= p0);
        }
        j += 1;
    }
    proof {
        assert(children@.take(j as int) =~= children@);
    }
    false
}

/// A match found in a prefix of a sibling list is the match of the whole list.
pub proof fn lemma_find_seq_prefix(cs: Seq<SampleNode>, k: int, name: Seq<char>)
    requires
        0 <= k <= cs.len(),
        find_seq(cs.take(k), name) is Some,
    ensures
        find_seq(cs, name) == find_seq(cs.take(k), name),
    decreases cs.len() - k,
{
    if k < cs.len() {
        let a = cs.take(k + 1);
        assert(a.drop_last() =~= cs.take(k));
        lemma_find_seq_prefix(cs, k + 1, name);
    } else {
        assert(cs.take(k) =~= cs);
    }
}


/// The node at path `q` below `n` (`n` itself for the empty path).
pub open spec fn node_below(n: SampleNode, q: Seq<usize>) -> SampleNode {
    if q.len() == 0 {
        n
    } else {
        node_at(children_of(n), q)
    }
}

/// Line `i` of `flat_node(n, ..)` shows the node at path `paths_node(n)[i]` below `n`.
pub proof fn lemma_line_node(n: SampleNode, depth: int, parent: Seq<char>, idx: int, dflt: bool, i: int)
    requires
        0 <= i < paths_node(n).len(),
    ensures
        flat_node(n, depth, parent, idx, dflt).len() == paths_node(n).len(),
        paths_node(n)[i].len() > 0 ==> valid_path(children_of(n), paths_node(n)[i]),
        flat_node(n, depth, parent, idx, dflt)[i].label == label_of(node_below(n, paths_node(n)[i])),
        flat_node(n, depth, parent, idx, dflt)[i].kind == kind_of(node_below(n, paths_node(n)[i])),
    decreases n, 1int,
{
    lemma_paths_len(n);
    assert(flat_node(n, depth, parent, idx, dflt).len() == paths_node(n).len());
    if i > 0 {
        match n {
            SampleNode::Root { label, children, .. } => {
                assert(children@.len() == children.len());
                lemma_line_seq(children@, depth + 1, label@, dflt, i - 1);
            },
            SampleNode::Folder { name, children, .. } => {
                assert(children@.len() == children.len());
                lemma_line_seq(children@, depth + 1, name@, dflt, i - 1);
            },
            SampleNode::File { .. } => {},
        }
    }
}

/// Line `i` of `flat_seq(cs, ..)` shows the node at path `paths_seq(cs)[i]`.
pub proof fn lemma_line_seq(cs: Seq<SampleNode>, depth: int, parent: Seq<char>, dflt: bool, i: int)
    requires
        0 <= i < paths_seq(cs).len(),
        cs.len() <= usize::MAX,
    ensures
        flat_seq(cs, depth, parent, dflt).len() == paths_seq(cs).len(),
        valid_path(cs, paths_seq(cs)[i]),
        flat_seq(cs, depth, parent, dflt)[i].label == label_of(node_at(cs, paths_seq(cs)[i])),
        flat_seq(cs, depth, parent, dflt)[i].kind == kind_of(node_at(cs, paths_seq(cs)[i])),
    decreases cs, 0int,
{
    lemma_paths_len_seq(cs);
    assert(flat_seq(cs, depth, parent, dflt).len() == paths_seq(cs).len());
    let dl = cs.drop_last();
    let last = cs.last();
    let idx = if last is File { file_count(dl) as int } else { 0 };
    let L = (cs.len() - 1) as usize;
    lemma_paths_len_seq(dl);
    lemma_paths_len(last);
    assert(flat_seq(dl, depth, parent, dflt).len() == paths_seq(dl).len());
    assert(flat_node(last, depth, parent, idx, dflt).len() == paths_node(last).len());
    let ps = paths_seq(dl) + paths_node(last).map_values(|p: Seq<usize>| seq![L] + p);
    assert(paths_seq(cs) == ps);
    let fs = flat_seq(dl, depth, parent, dflt) + flat_node(last, depth, parent, idx, dflt);
    assert(flat_seq(cs, depth, parent, dflt) == fs);
    let p = paths_seq(cs)[i];
    if i < paths_seq(dl).len() {
        lemma_line_seq(dl, depth, parent, dflt, i);
        assert(p == paths_seq(dl)[i]);
        assert(fs[i] == flat_seq(dl, depth, parent, dflt)[i]);
        assert(cs[p[0] as int] == dl[p[0] as int]);
        assert(valid_path(cs, p));
        assert(node_at(cs, p) == node_at(dl, p));
    } else {
        let j = i - paths_seq(dl).len();
        lemma_line_node(last, depth, parent, idx, dflt, j);
        let q = paths_node(last)[j];
        assert(p == seq![L] + q);
        assert(p.drop_first() =~= q);
        assert(fs[i] == flat_node(last, depth, parent, idx, dflt)[j]);
        assert(valid_path(cs, p));
        assert(node_at(cs, p) == node_below(last, q));
    }
}

/// Line `i` of `flat_roots(rs, dc)` shows the node at path `paths_seq(rs)[i]`.
pub proof fn lemma_line_roots(rs: Seq<SampleNode>, dc: int, i: int)
    requires
        0 <= i < paths_seq(rs).len(),
        rs.len() <= usize::MAX,
    ensures
        flat_roots(rs, dc).len() == paths_seq(rs).len(),
        valid_path(rs, paths_seq(rs)[i]),
        flat_roots(rs, dc)[i].label == label_of(node_at(rs, paths_seq(rs)[i])),
        flat_roots(rs, dc)[i].kind == kind_of(node_at(rs, paths_seq(rs)[i])),
    decreases rs.len(),
{
    lemma_flat_roots_len(rs, dc);
    let dl = rs.drop_last();
    let last = rs.last();
    let L = (rs.len() - 1) as usize;
    let dflt = rs.len() - 1 < dc;
    lemma_flat_roots_len(dl, dc);
    lemma_paths_len(last);
    assert(flat_node(last, 0, Seq::empty(), 0, dflt).len() == paths_node(last).len());
    let ps = paths_seq(dl) + paths_node(last).map_values(|p: Seq<usize>| seq![L] + p);
    assert(paths_seq(rs) == ps);
    let fs = flat_roots(dl, dc) + flat_node(last, 0, Seq::empty(), 0, dflt);
    assert(flat_roots(rs, dc) == fs);
    let p = paths_seq(rs)[i];
    if i < paths_seq(dl).len() {
        lemma_line_roots(dl, dc, i);
        assert(p == paths_seq(dl)[i]);
        assert(fs[i] == flat_roots(dl, dc)[i]);
        assert(rs[p[0] as int] == dl[p[0] as int]);
        assert(valid_path(rs, p));
        assert(node_at(rs, p) == node_at(dl, p));
    } else {
        let j = i - paths_seq(dl).len();
        lemma_line_node(last, 0, Seq::empty(), 0, dflt, j);
        let q = paths_node(last)[j];
        assert(p == seq![L] + q);
        assert(p.drop_first() =~= q);
        assert(fs[i] == flat_node(last, 0, Seq::empty(), 0, dflt)[j]);
        assert(valid_path(rs, p));
        assert(node_at(rs, p) == node_below(last, q));
    }
}

/// The match a folder search finds is an existing folder of that name.
pub proof fn lemma_find_node(n: SampleNode, name: Seq<char>)
    requires
        find_node(n, name) is Some,
    ensures
        find_node(n, name)->0.len() > 0 ==> valid_path(children_of(n), find_node(n, name)->0),
        node_below(n, find_node(n, name)->0) is Folder,
        label_of(node_below(n, find_node(n, name)->0)) == name,
    decreases n, 1int,
{
    match n {
        SampleNode::Folder { name: nm, children, .. } => {
            if nm@ != name {
                assert(children@.len() == children.len());
                lemma_find_seq(children@, name);
            }
        },
        SampleNode::Root { children, .. } => {
            assert(children@.len() == children.len());
            lemma_find_seq(children@, name);
        },
        SampleNode::File { .. } => {},
    }
}

pub proof fn lemma_find_seq(cs: Seq<SampleNode>, name: Seq<char>)
    requires
        find_seq(cs, name) is Some,
        cs.len() <= usize::MAX,
    ensures
        valid_path(cs, find_seq(cs, name)->0),
        node_at(cs, find_seq(cs, name)->0) is Folder,
        label_of(node_at(cs, find_seq(cs, name)->0)) == name,
    decreases cs, 0int,
{
    let dl = cs.drop_last();
    let p = find_seq(cs, name)->0;
    if find_seq(dl, name) is Some {
        lemma_find_seq(dl, name);
        assert(p == find_seq(dl, name)->0);
        assert(cs[p[0] as int] == dl[p[0] as int]);
        assert(valid_path(cs, p));
        assert(node_at(cs, p) == node_at(dl, p));
    } else {
        lemma_find_node(cs.last(), name);
        let q = find_node(cs.last(), name)->0;
        assert(p == seq![(cs.len() - 1) as usize] + q);
        assert(p.drop_first() =~= q);
        assert(valid_path(cs, p));
        assert(node_at(cs, p) == node_below(cs.last(), q));
    }
}

/// The tree of sample folders shown by the sample browser.
pub struct SampleTree {
    roots: Vec<SampleNode>,
    default_root_count: usize,
}

impl SampleTree {
    #[verifier::type_invariant]
    spec fn inv(self) -> bool {
        forall|i: int| 0 <= i < self.roots@.len() ==> node_wf(#[trigger] self.roots@[i])
    }

    /// The top-level nodes, default library first.
    pub closed spec fn roots(&self) -> Seq<SampleNode> {
        self.roots@
    }

    /// How many of the first roots come from the default library.
    pub closed spec fn default_count(&self) -> int {
        self.default_root_count as int
    }

    /// The lines the tree shows.
    pub open spec fn lines(&self) -> Seq<LineV> {
        flat_roots(self.roots(), self.default_count())
    }

    /// The path of the node each line shows.
    pub open spec fn line_paths(&self) -> Seq<Seq<usize>> {
        paths_seq(self.roots())
    }

    /// A tree holds no more roots than a `Vec` can.
    pub proof fn lemma_roots_len(&self)
        ensures
            self.roots().len() <= usize::MAX,
    {
        assert(self.roots@.len() == self.roots.len());
    }

    /// Whether the user library lists the entries of its single folder as roots: that is
    /// the case when no default library was found and exactly one user folder is set.
    pub fn lists_user_children(has_default_root: bool, user_path_count: usize) -> (r: bool)
        ensures
            r == (!has_default_root && user_path_count == 1),
    {
        !has_default_root && user_path_count == 1
    }

    /// A tree whose roots are the default library root (if any) followed by `user_nodes`.
    pub fn from_parts(default_root: Option<SampleNode>, user_nodes: Vec<SampleNode>) -> (t: Self)
        requires
            default_root matches Some(r) ==> node_wf(r),
            forall|i: int| 0 <= i < user_nodes@.len() ==> node_wf(#[trigger] user_nodes@[i]),
        ensures
            t.roots() == match default_root {
                Some(r) => seq![r] + user_nodes@,
                None => user_nodes@,
            },
            t.default_count() == if default_root is Some {
                1int
            } else {
                0int
            },
    {
        let ghost d = default_root;
        let ghost u = user_nodes@;
        let mut roots: Vec<SampleNode> = Vec::new();
        if let Some(r) = default_root {
            roots.push(r);
        }
        let default_root_count = roots.len();
        let mut user_nodes = user_nodes;
        roots.append(&mut user_nodes);
        proof {
            match d {
                Some(r) => assert(roots@ =~= seq![r] + u),
                None => assert(roots@ =~= u),
            }
        }
        SampleTree { roots, default_root_count }
    }

    /// The lines of every root and, below expanded nodes, of their children.
    pub fn visible_entries(&self) -> (r: Vec<TreeLine>)
        ensures
            lines_view(r@) == self.lines(),
    {
        proof {
            use_type_invariant(self);
        }
        let mut out: Vec<TreeLine> = Vec::new();
        let top = String::new();
        let mut i: usize = 0;
        while i < self.roots.len()
            invariant
                i <= self.roots@.len(),
                forall|k: int| 0 <= k < self.roots@.len() ==> node_wf(#[trigger] self.roots@[k]),
                lines_view(out@) == flat_roots(self.roots@.take(i as int), self.default_count()),
                top@ == Seq::<char>::empty(),
            decreases self.roots@.len() - i,
        {
            proof {
                assert(self.roots@.take(i as int + 1).drop_last() =~= self.roots@.take(i as int));
            }
            self.roots[i].flatten(0, top.as_str(), 0, i < self.default_root_count, &mut out);
            i += 1;
        }
        proof {
            assert(self.roots@.take(i as int) =~= self.roots@);
        }
        out
    }

    /// The path of the node shown on line `visible_index`, if there is such a line.
    fn node_at(&self, visible_index: usize) -> (r: Option<Vec<usize>>)
        ensures
            r is Some <==> visible_index < self.lines().len(),
            r matches Some(p) ==> p@ == self.line_paths()[visible_index as int],
    {
        proof {
            lemma_flat_roots_len(self.roots(), self.default_count());
        }
        let mut count: usize = 0;
        let mut path: Vec<usize> = Vec::new();
        if walk_children(&self.roots, visible_index, &mut count, &mut path) {
            proof {
                assert(path@ =~= self.line_paths()[visible_index as int]);
            }
            Some(path)
        } else {
            None
        }
    }

    /// The path of the first folder named `name`, if any.
    fn find_folder(&self, name: &String) -> (r: Option<Vec<usize>>)
        ensures
            r is Some <==> find_seq(self.roots(), name@) is Some,
            r matches Some(p) ==> p@ == find_seq(self.roots(), name@)->0,
    {
        let mut path: Vec<usize> = Vec::new();
        if find_in_children(&self.roots, name, &mut path) {
            proof {
                assert(path@ =~= find_seq(self.roots(), name@)->0);
            }
            Some(path)
        } else {
            None
        }
    }

    /// Whether the node at `path` is expanded.
    fn expanded_at(&self, path: &Vec<usize>) -> (r: bool)
        requires
            valid_path(self.roots(), path@),
        ensures
            r == expanded_of(node_at(self.roots(), path@)),
    {
        proof {
            assert(path@.skip(0) =~= path@);
        }
        expanded_in(&self.roots, path, 0)
    }

    /// Whether the node at `path` is a file.
    fn is_file_at(&self, path: &Vec<usize>) -> (r: bool)
        requires
            valid_path(self.roots(), path@),
        ensures
            r == node_at(self.roots(), path@) is File,
    {
        proof {
            assert(path@.skip(0) =~= path@);
        }
        file_in(&self.roots, path, 0)
    }

    /// Sets the expansion flag of the node at `path`.
    fn set_expanded_at(&mut self, path: &Vec<usize>, val: bool)
        requires
            valid_path(old(self).roots(), path@),
        ensures
            set_rel(old(self).roots(), final(self).roots(), path@, val),
            final(self).default_count() == old(self).default_count(),
    {
        proof {
            use_type_invariant(&*self);
            assert(path@.skip(0) =~= path@);
        }
        let ghost before = self.roots@;
        let mut roots: Vec<SampleNode> = Vec::new();
        std::mem::swap(&mut roots, &mut self.roots);
        set_in(&mut roots, path, 0, val);
        proof {
            lemma_set_rel_shape(before, roots@, path@, val);
            assert forall|i: int| 0 <= i < roots@.len() implies node_wf(#[trigger] roots@[i]) by {
                assert(node_wf(before[i]));
            }
        }
        self.roots = roots;
    }

    /// The lines a folder search for `names` shows, `collapsed` hiding the files.
    fn filtered_entries(&self, names: &Vec<String>, collapsed: bool) -> (r: Vec<TreeLine>)
        ensures
            lines_view(r@) == filtered_lines(
                self.roots(),
                self.default_count(),
                names@.map_values(|n: String| n@),
                collapsed,
            ),
    {
        let mut out: Vec<TreeLine> = Vec::new();
        let mut k: usize = 0;
        while k < names.len()
            invariant
                k <= names@.len(),
                lines_view(out@) == filtered_lines(
                    self.roots(),
                    self.default_count(),
                    names@.take(k as int).map_values(|n: String| n@),
                    collapsed,
                ),
            decreases names@.len() - k,
        {
            let ghost mid = out@;
            proof {
                assert(names@.take(k as int + 1).map_values(|n: String| n@).drop_last()
                    =~= names@.take(k as int).map_values(|n: String| n@));
            }
            let mut i: usize = 0;
            while i < self.roots.len()
                invariant
                    k < names@.len(),
                    i <= self.roots@.len(),
                    lines_view(out@) == lines_view(mid) + emit_roots(
                        self.roots@.take(i as int),
                        self.default_count(),
                        names@[k as int]@,
                        collapsed,
                    ),
                decreases self.roots@.len() - i,
            {
                proof {
                    assert(self.roots@.take(i as int + 1).drop_last() =~= self.roots@.take(
                        i as int,
                    ));
                }
                let is_default = i < self.default_root_count;
                self.roots[i].emit_filtered(&names[k], collapsed, is_default, &mut out);
                i += 1;
            }
            proof {
                assert(self.roots@.take(i as int) =~= self.roots@);
            }
            k += 1;
        }
        proof {
            assert(names@.take(k as int) =~= names@);
        }
        out
    }
}

/// Whether the node at `path[k..]` below `nodes` is a file.
fn file_in(nodes: &Vec<SampleNode>, path: &Vec<usize>, k: usize) -> (r: bool)
    requires
        k < path@.len(),
        valid_path(nodes@, path@.skip(k as int)),
    ensures
        r == node_at(nodes@, path@.skip(k as int)) is File,
    decreases path@.len() - k,
{
    let n = path.len();
    let i = path[k];
    proof {
        assert(path@.skip(k as int)[0] == i);
        assert(path@.skip(k as int).drop_first() =~= path@.skip(k as int + 1));
    }
    let ghost q = path@.skip(k as int);
    if k + 1 == n {
        assert(node_at(nodes@, q) == nodes@[i as int]);
        !nodes[i].is_expandable()
    } else {
        assert(node_at(nodes@, q) == node_at(children_of(nodes@[i as int]), path@.skip(k as int + 1)));
        match &nodes[i] {
            SampleNode::Root { children, .. } => file_in(children, path, k + 1),
            SampleNode::Folder { children, .. } => file_in(children, path, k + 1),
            SampleNode::File { .. } => {
                assert(valid_path(children_of(nodes@[i as int]), path@.skip(k as int + 1)));
                false
            },
        }
    }
}

/// Whether the node at `path[k..]` below `nodes` is expanded.
fn expanded_in(nodes: &Vec<SampleNode>, path: &Vec<usize>, k: usize) -> (r: bool)
    requires
        k < path@.len(),
        valid_path(nodes@, path@.skip(k as int)),
    ensures
        r == expanded_of(node_at(nodes@, path@.skip(k as int))),
    decreases path@.len() - k,
{
    let n = path.len();
    let i = path[k];
    proof {
        assert(path@.skip(k as int)[0] == i);
        assert(path@.skip(k as int).drop_first() =~= path@.skip(k as int + 1));
    }
    let ghost q = path@.skip(k as int);
    if k + 1 == n {
        assert(q.len() == 1);
        assert(node_at(nodes@, q) == nodes@[i as int]);
        nodes[i].expanded()
    } else {
        assert(q.len() > 1);
        assert(node_at(nodes@, q) == node_at(children_of(nodes@[i as int]), path@.skip(k as int + 1)));
        match &nodes[i] {
            SampleNode::Root { children, .. } => expanded_in(children, path, k + 1),
            SampleNode::Folder { children, .. } => expanded_in(children, path, k + 1),
            SampleNode::File { .. } => {
                assert(valid_path(children_of(nodes@[i as int]), path@.skip(k as int + 1)));
                false
            },
        }
    }
}


/// The lines shown for `tree` under the search filter `filter` (folder names in order).
pub open spec fn expected_lines(tree: SampleTree, filter: Option<Seq<Seq<char>>>) -> Seq<LineV> {
    match filter {
        Some(names) => filtered_lines(tree.roots(), tree.default_count(), names, false),
        None => tree.lines(),
    }
}

/// The cursor kept inside a list of `count` lines.
pub open spec fn clamped_cursor(cursor: int, count: int) -> int {
    if count == 0 {
        0
    } else if cursor >= count {
        count - 1
    } else {
        cursor
    }
}

/// The scroll offset kept at or above the (clamped) cursor.
pub open spec fn clamped_offset(offset: int, cursor: int, count: int) -> int {
    if count == 0 {
        0
    } else if offset > clamped_cursor(cursor, count) {
        clamped_cursor(cursor, count)
    } else {
        offset
    }
}

/// The last folder or root line before line `k`.
pub open spec fn dir_line_before(lines: Seq<LineV>, k: int) -> Option<int>
    decreases k,
{
    if k <= 0 {
        None
    } else if lines[k - 1].kind is Folder || lines[k - 1].kind is Root {
        Some(k - 1)
    } else {
        dir_line_before(lines, k - 1)
    }
}

/// The roots after setting the flag of the node at `p` to `val`, where `p` is the path the
/// browser picked (or none), described as a relation between the old and new roots.
pub open spec fn roots_after(
    old: Seq<SampleNode>,
    new: Seq<SampleNode>,
    p: Option<Seq<usize>>,
    val: bool,
) -> bool {
    match p {
        Some(q) => set_rel(old, new, q, val),
        None => new == old,
    }
}

/// Folder names a search scores, in tree order: each folder of a root, and each folder
/// that is itself a root.
pub open spec fn candidates_node(n: SampleNode) -> Seq<Seq<char>>
    decreases n, 1int,
{
    match n {
        SampleNode::Root { children, .. } => candidates_seq(children@),
        SampleNode::Folder { name, .. } => seq![name@],
        SampleNode::File { .. } => Seq::empty(),
    }
}

pub open spec fn candidates_seq(cs: Seq<SampleNode>) -> Seq<Seq<char>>
    decreases cs, 0int,
{
    if cs.len() == 0 {
        Seq::empty()
    } else {
        candidates_seq(cs.drop_last()) + candidates_node(cs.last())
    }
}

/// The (score, name) pairs of the candidates that matched, in candidate order.
pub open spec fn scored(names: Seq<Seq<char>>, scores: Seq<Option<i32>>) -> Seq<(i32, Seq<char>)>
    decreases scores.len(),
{
    if scores.len() == 0 || names.len() == 0 {
        Seq::empty()
    } else {
        scored(names.drop_last(), scores.drop_last()) + match scores.last() {
            Some(x) => seq![(x, names.last())],
            None => Seq::empty(),
        }
    }
}

/// Inserts `x` into `t` after every element whose score is at least that of `x`,
/// looking from the back.
pub open spec fn insert_desc(t: Seq<(i32, Seq<char>)>, x: (i32, Seq<char>)) -> Seq<(i32, Seq<char>)>
    decreases t.len(),
{
    if t.len() == 0 || t.last().0 >= x.0 {
        t.push(x)
    } else {
        insert_desc(t.drop_last(), x).push(t.last())
    }
}

/// `s` sorted by descending score, pairs with equal scores keeping their order.
pub open spec fn sort_desc(s: Seq<(i32, Seq<char>)>) -> Seq<(i32, Seq<char>)>
    decreases s.len(),
{
    if s.len() == 0 {
        Seq::empty()
    } else {
        insert_desc(sort_desc(s.drop_last()), s.last())
    }
}

pub open spec fn sorted_desc(s: Seq<(i32, Seq<char>)>) -> bool {
    forall|i: int, j: int| 0 <= i < j < s.len() ==> s[i].0 >= s[j].0
}

pub open spec fn pairs_view(v: Seq<(i32, String)>) -> Seq<(i32, Seq<char>)> {
    v.map_values(|p: (i32, String)| (p.0, p.1@))
}

pub open spec fn names_of(v: Seq<(i32, Seq<char>)>) -> Seq<Seq<char>> {
    v.map_values(|p: (i32, Seq<char>)| p.1)
}

/// The filter a search installs, given the score (if any) of each candidate folder.
pub open spec fn search_filter(tree: SampleTree, query: Seq<char>, scores: Seq<Option<i32>>) -> Option<
    Seq<Seq<char>>,
> {
    if query.len() == 0 {
        None
    } else {
        Some(names_of(sort_desc(scored(candidates_seq(tree.roots()), scores))))
    }
}

/// Inserting next to elements with equal or higher score, from the back, equals inserting
/// at the place the scan stops.
proof fn lemma_insert_desc_split(t: Seq<(i32, Seq<char>)>, x: (i32, Seq<char>), j: int)
    requires
        0 <= j <= t.len(),
        forall|i: int| j <= i < t.len() ==> #[trigger] t[i].0 < x.0,
    ensures
        insert_desc(t, x) == insert_desc(t.take(j), x) + t.skip(j),
    decreases t.len() - j,
{
    if j < t.len() {
        let dl = t.drop_last();
        lemma_insert_desc_split(dl, x, j);
        assert(dl.take(j) =~= t.take(j));
        assert(t.skip(j) =~= dl.skip(j).push(t.last()));
        assert(insert_desc(t, x) == insert_desc(dl, x).push(t.last()));
        assert(insert_desc(t, x) =~= insert_desc(t.take(j), x) + t.skip(j));
    } else {
        assert(t.take(j) =~= t);
        assert(t.skip(j) =~= Seq::<(i32, Seq<char>)>::empty());
        assert(insert_desc(t, x) + Seq::<(i32, Seq<char>)>::empty() =~= insert_desc(t, x));
    }
}

/// A search result lists folders by descending score, and holds exactly the matched ones.
pub proof fn lemma_sort_desc_sorted(s: Seq<(i32, Seq<char>)>)
    ensures
        sorted_desc(sort_desc(s)),
        sort_desc(s).to_multiset() == s.to_multiset(),
    decreases s.len(),
{
    broadcast use vstd::seq_lib::group_to_multiset_ensures;

    if s.len() > 0 {
        lemma_sort_desc_sorted(s.drop_last());
        lemma_insert_desc_sorted(sort_desc(s.drop_last()), s.last());
        assert(s =~= s.drop_last().push(s.last()));
    }
}

proof fn lemma_insert_desc_sorted(t: Seq<(i32, Seq<char>)>, x: (i32, Seq<char>))
    requires
        sorted_desc(t),
    ensures
        sorted_desc(insert_desc(t, x)),
        insert_desc(t, x).to_multiset() == t.to_multiset().insert(x),
    decreases t.len(),
{
    broadcast use vstd::seq_lib::group_to_multiset_ensures;
    broadcast use vstd::multiset::group_multiset_axioms;

    if t.len() == 0 || t.last().0 >= x.0 {
    } else {
        let dl = t.drop_last();
        let m = t.last();
        lemma_insert_desc_sorted(dl, x);
        let r = insert_desc(dl, x);
        assert(t =~= dl.push(m));
        assert forall|i: int| 0 <= i < r.len() implies #[trigger] r[i].0 >= m.0 by {
            assert(r.contains(r[i]));
            assert(r.to_multiset().count(r[i]) > 0);
            if r[i] != x {
                assert(dl.to_multiset().count(r[i]) > 0);
                assert(dl.contains(r[i]));
                let k = choose|k: int| 0 <= k < dl.len() && dl[k] == r[i];
                assert(t[k] == dl[k]);
            }
        }
        let rp = r.push(m);
        assert forall|i: int, j: int| 0 <= i < j < rp.len() implies rp[i].0 >= rp[j].0 by {
            if j == r.len() {
                assert(rp[i] == r[i]);
            } else {
                assert(rp[i] == r[i] && rp[j] == r[j]);
            }
        }
        assert(t.to_multiset().insert(x) =~= dl.to_multiset().insert(x).insert(m));
    }
}

impl SampleNode {
    /// Appends the folder names a search scores below this node (see [`candidates_node`]).
    fn collect_folder_names(&self, out: &mut Vec<String>)
        ensures
            final(out)@.map_values(|n: String| n@) == old(out)@.map_values(|n: String| n@)
                + candidates_node(*self),
        decreases *self, 1int,
    {
        match self {
            SampleNode::Root { children, .. } => collect_children_names(children, out),
            SampleNode::Folder { name, .. } => {
                let ghost before = out@;
                out.push(name.clone());
                proof {
                    assert(out@.map_values(|n: String| n@) =~= before.map_values(|n: String| n@)
                        + seq![name@]);
                }
            },
            SampleNode::File { .. } => {
                proof {
                    assert(out@.map_values(|n: String| n@) =~= out@.map_values(|n: String| n@)
                        + Seq::<Seq<char>>::empty());
                }
            },
        }
    }
}

fn collect_children_names(children: &Vec<SampleNode>, out: &mut Vec<String>)
    ensures
        final(out)@.map_values(|n: String| n@) == old(out)@.map_values(|n: String| n@)
            + candidates_seq(children@),
    decreases children, 0int,
{
    let ghost before = out@.map_values(|n: String| n@);
    let mut j: usize = 0;
    while j < children.len()
        invariant
            j <= children@.len(),
            out@.map_values(|n: String| n@) == before + candidates_seq(children@.take(j as int)),
        decreases children@.len() - j,
    {
        proof {
            assert(children@.take(j as int + 1).drop_last() =~= children@.take(j as int));
        }
        children[j].collect_folder_names(out);
        j += 1;
    }
    proof {
        assert(children@.take(j as int) =~= children@);
    }
}

/// Inserts `x` into `v` as [`insert_desc`] does.
fn insert_by_score(v: &mut Vec<(i32, String)>, x: (i32, String))
    ensures
        pairs_view(final(v)@) == insert_desc(pairs_view(old(v)@), (x.0, x.1@)),
{
    let ghost t = pairs_view(v@);
    let ghost xv = (x.0, x.1@);
    let mut j = v.len();
    while j > 0 && v[j - 1].0 < x.0
        invariant
            j <= v@.len(),
            v@ == old(v)@,
            t == pairs_view(v@),
            xv == (x.0, x.1@),
            forall|i: int| j <= i < t.len() ==> #[trigger] t[i].0 < xv.0,
        decreases j,
    {
        proof {
            assert(v@[j as int - 1].0 < x.0);
            assert(t[j as int - 1].0 == v@[j as int - 1].0);
            assert(t[j as int - 1].0 < xv.0);
        }
        j -= 1;
    }
    proof {
        lemma_insert_desc_split(t, xv, j as int);
        assert(t.take(j as int).len() == 0 || t.take(j as int).last().0 >= xv.0);
        assert(insert_desc(t.take(j as int), xv) == t.take(j as int).push(xv));
    }
    v.insert(j, x);
    proof {
        assert(pairs_view(v@) =~= t.take(j as int).push(xv) + t.skip(j as int));
    }
}

/// The node a collapse acts on for line `k`: under a search, the first folder named like
/// the line; otherwise the node shown on line `k` of the tree.
pub open spec fn collapse_target(v: BrowserView, k: int) -> Option<Seq<usize>> {
    if v.filter is Some {
        find_seq(v.tree.roots(), v.entries[k].label)
    } else if k < v.tree.lines().len() {
        Some(v.tree.line_paths()[k])
    } else {
        None
    }
}

/// The line whose node a collapse at the cursor closes: for a file, the nearest folder or
/// root line above it; for an expanded folder or root, its own line.
pub open spec fn collapse_line(v: BrowserView) -> Option<int> {
    let c = v.cursor;
    if v.entries[c].kind is File {
        dir_line_before(v.entries, c)
    } else if (v.entries[c].kind matches TreeLineKind::Folder { expanded } && expanded) || (
    v.entries[c].kind matches TreeLineKind::Root { expanded } && expanded) {
        Some(c)
    } else {
        None
    }
}

/// Model of a [`SampleBrowserState`].
pub struct BrowserView {
    pub tree: SampleTree,
    pub cursor: int,
    pub scroll_offset: int,
    pub search_query: Seq<char>,
    /// The folder names of the active search filter, in display order.
    pub filter: Option<Seq<Seq<char>>>,
    /// The lines on display.
    pub entries: Seq<LineV>,
}

/// The path picked to toggle at the cursor: under a search, the first folder named like
/// the folder line under the cursor; otherwise the node shown on the cursor line,
/// unless it is a file.
pub open spec fn toggle_target(v: BrowserView) -> Option<Seq<usize>> {
    let c = v.cursor;
    if v.filter is Some {
        if c < v.entries.len() && v.entries[c].kind is Folder {
            find_seq(v.tree.roots(), v.entries[c].label)
        } else {
            None
        }
    } else if c < v.tree.lines().len() && !(node_at(v.tree.roots(), v.tree.line_paths()[c]) is File) {
        Some(v.tree.line_paths()[c])
    } else {
        None
    }
}

/// The value the flag of the toggled node gets: the opposite of its current one.
pub open spec fn toggled_value(v: BrowserView) -> bool {
    match toggle_target(v) {
        Some(p) => !expanded_of(node_at(v.tree.roots(), p)),
        None => false,
    }
}


/// `w` is browser `v` after [`SampleBrowserState::toggle_expand`]: the flag of the picked
/// node flipped and nothing else in the tree changed, the lines refreshed, the cursor and
/// scroll offset kept in range.
pub open spec fn toggled(v: BrowserView, w: BrowserView) -> bool {
    &&& roots_after(v.tree.roots(), w.tree.roots(), toggle_target(v), toggled_value(v))
    &&& w.tree.default_count() == v.tree.default_count()
    &&& w.filter == v.filter
    &&& w.entries == expected_lines(w.tree, w.filter)
    &&& w.cursor == clamped_cursor(v.cursor, w.entries.len() as int)
    &&& w.scroll_offset == clamped_offset(v.scroll_offset, v.cursor, w.entries.len() as int)
    &&& w.search_query == v.search_query
}

/// `v` with the cursor `n` lines up (stopping at the first), scrolled to keep it visible.
pub open spec fn moved_up(v: BrowserView, n: int) -> BrowserView {
    let c = if v.cursor >= n {
        v.cursor - n
    } else {
        0
    };
    BrowserView {
        cursor: c,
        scroll_offset: if c < v.scroll_offset {
            c
        } else {
            v.scroll_offset
        },
        ..v
    }
}

/// `v` with the cursor `n` lines down (stopping at the last), scrolled so that it stays
/// within a window of `h` lines.
pub open spec fn moved_down(v: BrowserView, n: int, h: int) -> BrowserView {
    let count = v.entries.len();
    let c = if v.cursor + n <= count - 1 {
        v.cursor + n
    } else {
        count - 1
    };
    if count == 0 {
        v
    } else {
        BrowserView {
            cursor: c,
            scroll_offset: if c >= v.scroll_offset + h {
                c - h + 1
            } else {
                v.scroll_offset
            },
            ..v
        }
    }
}

/// Moving down `n` lines within a window of `h` lines computes no position past the
/// machine limit: with lines on display, the cursor `n` lines further and the end of the
/// window.
pub open spec fn down_fits(v: BrowserView, n: int, h: int) -> bool {
    v.entries.len() > 0 ==> v.cursor + n <= usize::MAX && v.scroll_offset + h <= usize::MAX
}

/// `v` with no search or filter, the whole tree on display and the cursor on the first
/// line.
pub open spec fn search_cleared(v: BrowserView) -> BrowserView {
    BrowserView {
        cursor: 0,
        scroll_offset: 0,
        search_query: Seq::empty(),
        filter: None,
        entries: v.tree.lines(),
        ..v
    }
}

/// `w` is `v` after collapsing at the cursor: the folder or root on the cursor line (for a
/// file line, the one holding it) is collapsed, and the cursor goes to that folder's line
/// for a file, or stays within the lines left.
pub open spec fn collapsed(v: BrowserView, w: BrowserView) -> bool {
    if v.cursor >= v.entries.len() {
        w == v
    } else {
        &&& roots_after(
            v.tree.roots(),
            w.tree.roots(),
            match collapse_line(v) {
                Some(k) => collapse_target(v, k),
                None => None,
            },
            false,
        )
        &&& w.tree.default_count() == v.tree.default_count()
        &&& w.filter == v.filter
        &&& w.search_query == v.search_query
        &&& w.entries == expected_lines(w.tree, w.filter)
        &&& if v.entries[v.cursor].kind is File && collapse_line(v) is Some {
            let i = collapse_line(v)->0;
            &&& w.cursor == i
            &&& w.scroll_offset == if i < v.scroll_offset {
                i
            } else {
                v.scroll_offset
            }
        } else {
            &&& w.cursor == clamped_cursor(v.cursor, w.entries.len() as int)
            &&& w.scroll_offset == clamped_offset(v.scroll_offset, v.cursor, w.entries.len() as int)
        }
    }
}

/// State of the keyboard-driven sample browser: the tree, a cursor over its visible lines,
/// and an optional folder search filter.
pub struct SampleBrowserState {
    pub tree: SampleTree,
    pub cursor: usize,
    pub scroll_offset: usize,
    pub search_query: String,
    filter: Option<Vec<String>>,
    cached_entries: Vec<TreeLine>,
}

impl View for SampleBrowserState {
    type V = BrowserView;

    closed spec fn view(&self) -> BrowserView {
        BrowserView {
            tree: self.tree,
            cursor: self.cursor as int,
            scroll_offset: self.scroll_offset as int,
            search_query: self.search_query@,
            filter: match self.filter {
                Some(v) => Some(v@.map_values(|n: String| n@)),
                None => None,
            },
            entries: lines_view(self.cached_entries@),
        }
    }
}

impl SampleBrowserState {
    /// A browser over `tree` with the cursor on the first line and no search.
    pub fn with_tree(tree: SampleTree) -> (s: Self)
        ensures
            s@.tree == tree,
            s@.cursor == 0,
            s@.scroll_offset == 0,
            s@.search_query == Seq::<char>::empty(),
            s@.filter is None,
            s@.entries == tree.lines(),
    {
        let cached_entries = tree.visible_entries();
        SampleBrowserState {
            tree,
            cursor: 0,
            scroll_offset: 0,
            search_query: String::new(),
            filter: None,
            cached_entries,
        }
    }

    fn rebuild_cache(&mut self)
        ensures
            final(self)@ == (BrowserView {
                entries: expected_lines(old(self)@.tree, old(self)@.filter),
                ..old(self)@
            }),
    {
        self.cached_entries = match &self.filter {
            Some(names) => self.tree.filtered_entries(names, false),
            None => self.tree.visible_entries(),
        };
    }

    /// The cursor and the scroll offset are machine words.
    pub proof fn lemma_view_bounds(&self)
        ensures
            0 <= self@.cursor <= usize::MAX,
            0 <= self@.scroll_offset <= usize::MAX,
    {
    }

    /// The line the cursor is on.
    pub fn cursor(&self) -> (r: usize)
        ensures
            r == self@.cursor,
    {
        self.cursor
    }

    /// Puts the cursor on line `c`, as a click on a line does; nothing else changes.
    pub fn set_cursor(&mut self, c: usize)
        ensures
            final(self)@ == (BrowserView { cursor: c as int, ..old(self)@ }),
    {
        self.cursor = c;
    }

    /// Sets the scroll offset, as scrolling the list does; nothing else changes.
    pub fn set_scroll_offset(&mut self, offset: usize)
        ensures
            final(self)@ == (BrowserView { scroll_offset: offset as int, ..old(self)@ }),
    {
        self.scroll_offset = offset;
    }

    /// Sets the search text, as typing in the search field does; nothing else changes (the
    /// lines follow on the next [`SampleBrowserState::update_search`]).
    pub fn set_search_query(&mut self, q: String)
        ensures
            final(self)@ == (BrowserView { search_query: q@, ..old(self)@ }),
    {
        self.search_query = q;
    }

    /// The lines on display.
    pub fn entries(&self) -> (r: &[TreeLine])
        ensures
            lines_view(r@) == self@.entries,
    {
        self.cached_entries.as_slice()
    }

    /// The line under the cursor, if the cursor is on a line.
    pub fn current_entry(&self) -> (r: Option<&TreeLine>)
        ensures
            r is Some <==> self@.cursor < self@.entries.len(),
            r matches Some(l) ==> l@ == self@.entries[self@.cursor],
    {
        if self.cursor < self.cached_entries.len() {
            Some(&self.cached_entries[self.cursor])
        } else {
            None
        }
    }

    fn visible_count(&self) -> (r: usize)
        ensures
            r == self@.entries.len(),
    {
        self.cached_entries.len()
    }

    fn clamp_view(&mut self)
        ensures
            final(self)@ == (BrowserView {
                cursor: clamped_cursor(old(self)@.cursor, old(self)@.entries.len() as int),
                scroll_offset: clamped_offset(
                    old(self)@.scroll_offset,
                    old(self)@.cursor,
                    old(self)@.entries.len() as int,
                ),
                ..old(self)@
            }),
    {
        let count = self.cached_entries.len();
        if count == 0 {
            self.cursor = 0;
            self.scroll_offset = 0;
            return;
        }
        if self.cursor >= count {
            self.cursor = count - 1;
        }
        if self.scroll_offset > self.cursor {
            self.scroll_offset = self.cursor;
        }
    }

    /// Moves the cursor up by `n` lines (stopping at the first), scrolling to keep it visible.
    pub fn move_up(&mut self, n: usize)
        ensures
            final(self)@ == moved_up(old(self)@, n as int),
    {
        self.cursor = self.cursor.saturating_sub(n);
        if self.cursor < self.scroll_offset {
            self.scroll_offset = self.cursor;
        }
    }

    /// Moves the cursor down by `n` lines (stopping at the last), scrolling so that it stays
    /// within a window of `visible_height` lines.
    pub fn move_down(&mut self, n: usize, visible_height: usize)
        requires
            down_fits(old(self)@, n as int, visible_height as int),
        ensures
            final(self)@ == moved_down(old(self)@, n as int, visible_height as int),
    {
        let count = self.visible_count();
        if count == 0 {
            return;
        }
        self.cursor = (self.cursor + n).min(count - 1);
        if self.cursor >= self.scroll_offset + visible_height {
            self.scroll_offset = self.cursor - visible_height + 1;
        }
    }

    /// Sets the flag of the node at `target` (if any) to `val`.
    fn apply_expanded(&mut self, target: Option<Vec<usize>>, val: bool)
        requires
            target matches Some(p) ==> valid_path(old(self)@.tree.roots(), p@),
        ensures
            roots_after(
                old(self)@.tree.roots(),
                final(self)@.tree.roots(),
                match target {
                    Some(p) => Some(p@),
                    None => None,
                },
                val,
            ),
            final(self)@.tree.default_count() == old(self)@.tree.default_count(),
            final(self)@ == (BrowserView { tree: final(self)@.tree, ..old(self)@ }),
    {
        if let Some(p) = target {
            self.tree.set_expanded_at(&p, val);
        }
    }

    /// Expands or collapses the node under the cursor (see [`toggle_target`]), then
    /// refreshes the lines and keeps the cursor in range.
    pub fn toggle_expand(&mut self)
        ensures
            toggled(old(self)@, final(self)@),
    {
        let ghost roots0 = self.tree.roots();
        let mut target: Option<Vec<usize>> = None;
        let mut new_val = false;
        if self.filter.is_some() {
            let is_folder = self.cursor < self.cached_entries.len() && matches!(
                self.cached_entries[self.cursor].kind,
                TreeLineKind::Folder { .. }
            );
            if is_folder {
                let label = self.cached_entries[self.cursor].label.clone();
                if let Some(p) = self.tree.find_folder(&label) {
                    proof {
                        assert(self.tree.roots@.len() == self.tree.roots.len());
                        lemma_find_seq(roots0, label@);
                    }
                    new_val = !self.tree.expanded_at(&p);
                    target = Some(p);
                }
            }
        } else if let Some(p) = self.tree.node_at(self.cursor) {
            proof {
                assert(self.tree.roots@.len() == self.tree.roots.len());
                lemma_flat_roots_len(roots0, self.tree.default_count());
                lemma_line_roots(roots0, self.tree.default_count(), self.cursor as int);
            }
            if !self.tree.is_file_at(&p) {
                new_val = !self.tree.expanded_at(&p);
                target = Some(p);
            }
        }
        self.apply_expanded(target, new_val);
        self.rebuild_cache();
        self.clamp_view();
    }

    /// The folder names a search scores, in tree order (see [`candidates_seq`]).
    pub fn search_candidates(&self) -> (r: Vec<String>)
        ensures
            r@.map_values(|n: String| n@) == candidates_seq(self@.tree.roots()),
    {
        let mut out: Vec<String> = Vec::new();
        proof {
            assert(out@.map_values(|n: String| n@) =~= Seq::<Seq<char>>::empty());
        }
        collect_children_names(&self.tree.roots, &mut out);
        proof {
            assert(out@.map_values(|n: String| n@) =~= candidates_seq(self@.tree.roots()));
        }
        out
    }

    /// Applies the search query: with an empty query the filter goes away; otherwise the
    /// filter lists the candidate folders that matched, best score first. `scores[i]` is the
    /// fuzzy score of `search_candidates()[i]` against the query, if it matched.
    pub fn update_search(&mut self, scores: &[Option<i32>])
        requires
            old(self)@.search_query.len() > 0 ==> scores@.len() == candidates_seq(
                old(self)@.tree.roots(),
            ).len(),
        ensures
            final(self)@ == (BrowserView {
                cursor: 0,
                scroll_offset: 0,
                filter: search_filter(old(self)@.tree, old(self)@.search_query, scores@),
                entries: expected_lines(
                    old(self)@.tree,
                    search_filter(old(self)@.tree, old(self)@.search_query, scores@),
                ),
                ..old(self)@
            }),
    {
        if self.search_query.as_str().is_empty() {
            self.filter = None;
        } else {
            let names = self.search_candidates();
            let ghost nv = names@.map_values(|n: String| n@);
            let mut scored_pairs: Vec<(i32, String)> = Vec::new();
            let mut i: usize = 0;
            while i < scores.len()
                invariant
                    i <= scores@.len(),
                    scores@.len() == names@.len(),
                    nv == names@.map_values(|n: String| n@),
                    pairs_view(scored_pairs@) == scored(
                        nv.take(i as int),
                        scores@.take(i as int),
                    ),
                decreases scores@.len() - i,
            {
                proof {
                    assert(nv.take(i as int + 1).drop_last() =~= nv.take(i as int));
                    assert(scores@.take(i as int + 1).drop_last() =~= scores@.take(i as int));
                }
                if let Some(x) = scores[i] {
                    let ghost before = scored_pairs@;
                    scored_pairs.push((x, names[i].clone()));
                    proof {
                        assert(pairs_view(scored_pairs@) =~= pairs_view(before) + seq![
                            (x, nv[i as int]),
                        ]);
                    }
                } else {
                    proof {
                        assert(pairs_view(scored_pairs@) =~= pairs_view(scored_pairs@)
                            + Seq::<(i32, Seq<char>)>::empty());
                    }
                }
                i += 1;
            }
            proof {
                assert(nv.take(i as int) =~= nv);
                assert(scores@.take(i as int) =~= scores@);
            }
            let ghost all = pairs_view(scored_pairs@);
            let mut sorted: Vec<(i32, String)> = Vec::new();
            let mut k: usize = 0;
            let n = scored_pairs.len();
            let mut rest = scored_pairs;
            let ghost rest0 = rest@;
            while k < n
                invariant
                    k <= n,
                    n == rest0.len(),
                    rest@ == rest0,
                    all == pairs_view(rest0),
                    pairs_view(sorted@) == sort_desc(all.take(k as int)),
                decreases n - k,
            {
                proof {
                    assert(all.take(k as int + 1).drop_last() =~= all.take(k as int));
                }
                let pair = (rest[k].0, rest[k].1.clone());
                insert_by_score(&mut sorted, pair);
                k += 1;
            }
            proof {
                assert(all.take(k as int) =~= all);
            }
            let mut filter_names: Vec<String> = Vec::new();
            let mut m: usize = 0;
            while m < sorted.len()
                invariant
                    m <= sorted@.len(),
                    filter_names@.map_values(|n: String| n@) == names_of(
                        pairs_view(sorted@).take(m as int),
                    ),
                decreases sorted@.len() - m,
            {
                let ghost before = filter_names@;
                filter_names.push(sorted[m].1.clone());
                proof {
                    let pv = pairs_view(sorted@);
                    assert(pv.take(m as int + 1) =~= pv.take(m as int).push(pv[m as int]));
                    assert(names_of(pv.take(m as int + 1)) =~= names_of(pv.take(m as int)).push(
                        pv[m as int].1,
                    ));
                    assert(filter_names@.map_values(|n: String| n@) =~= before.map_values(
                        |n: String| n@,
                    ).push(pv[m as int].1));
                }
                m += 1;
            }
            proof {
                assert(pairs_view(sorted@).take(m as int) =~= pairs_view(sorted@));
            }
            self.filter = Some(filter_names);
        }
        self.cursor = 0;
        self.scroll_offset = 0;
        self.rebuild_cache();
    }

    /// Clears the search query and the filter, and puts the cursor back on the first line.
    pub fn clear_search(&mut self)
        ensures
            final(self)@ == search_cleared(old(self)@),
    {
        self.search_query = String::new();
        self.filter = None;
        self.cursor = 0;
        self.scroll_offset = 0;
        self.rebuild_cache();
    }

    /// Drops the filter and the query, and puts the cursor back on the first line.
    pub fn clear_filter(&mut self)
        ensures
            final(self)@ == search_cleared(old(self)@),
    {
        self.filter = None;
        self.search_query = String::new();
        self.cursor = 0;
        self.scroll_offset = 0;
        self.rebuild_cache();
    }

    /// The path of the node a collapse acts on for line `k` (see [`collapse_target`]).
    fn collapse_path(&self, k: usize) -> (r: Option<Vec<usize>>)
        requires
            (k as int) < self@.entries.len(),
        ensures
            match r {
                Some(p) => collapse_target(self@, k as int) == Some(p@),
                None => collapse_target(self@, k as int) is None,
            },
            r matches Some(p) ==> valid_path(self@.tree.roots(), p@),
    {
        proof {
            assert(self.tree.roots@.len() == self.tree.roots.len());
            lemma_flat_roots_len(self.tree.roots(), self.tree.default_count());
        }
        if self.filter.is_some() {
            let label = self.cached_entries[k].label.clone();
            let r = self.tree.find_folder(&label);
            proof {
                if r is Some {
                    lemma_find_seq(self.tree.roots(), label@);
                }
            }
            r
        } else {
            let r = self.tree.node_at(k);
            proof {
                if r is Some {
                    lemma_line_roots(self.tree.roots(), self.tree.default_count(), k as int);
                }
            }
            r
        }
    }

    /// Closes the folder around the cursor: on a file line, the nearest folder or root above
    /// it is collapsed and the cursor moves onto it; on an expanded folder or root line, that
    /// node is collapsed. The lines are refreshed afterwards.
    pub fn collapse_at_cursor(&mut self)
        ensures
            collapsed(old(self)@, final(self)@),
    {
        if self.cursor >= self.cached_entries.len() {
            return;
        }
        let ghost v = self@;
        let is_file = matches!(self.cached_entries[self.cursor].kind, TreeLineKind::File);
        proof {
            assert(self.cached_entries@[self.cursor as int]@ == v.entries[v.cursor]);
        }
        if is_file {
            let mut i = self.cursor;
            while i > 0 && !matches!(
                self.cached_entries[i - 1].kind,
                TreeLineKind::Folder { .. } | TreeLineKind::Root { .. }
            )
                invariant
                    i <= self.cursor,
                    self@ == v,
                    self.cursor < self.cached_entries@.len(),
                    dir_line_before(v.entries, v.cursor) == dir_line_before(v.entries, i as int),
                decreases i,
            {
                proof {
                    assert(self.cached_entries@[i - 1]@ == v.entries[i - 1]);
                }
                i -= 1;
            }
            if i > 0 {
                let parent = i - 1;
                proof {
                    assert(self.cached_entries@[parent as int]@ == v.entries[parent as int]);
                    assert(dir_line_before(v.entries, i as int) == Some(parent as int));
                }
                let target = self.collapse_path(parent);
                self.apply_expanded(target, false);
                self.cursor = parent;
                if self.cursor < self.scroll_offset {
                    self.scroll_offset = self.cursor;
                }
                self.rebuild_cache();
                return;
            }
        } else {
            let is_expanded = match &self.cached_entries[self.cursor].kind {
                TreeLineKind::Folder { expanded } => *expanded,
                TreeLineKind::Root { expanded } => *expanded,
                TreeLineKind::File => false,
            };
            if is_expanded {
                let target = self.collapse_path(self.cursor);
                self.apply_expanded(target, false);
            }
        }
        self.rebuild_cache();
        self.clamp_view();
    }
}


/// The keys the sample browser reads in one frame: `up` and `down` are the arrows or `k`
/// and `j`; `activate` is Enter or the right arrow; `ctrl` is the command modifier.
#[derive(Clone, Copy, Debug)]
pub struct BrowserKeys {
    pub escape: bool,
    pub up: bool,
    pub down: bool,
    pub page_up: bool,
    pub page_down: bool,
    pub activate: bool,
    pub left: bool,
    pub slash: bool,
    pub ctrl: bool,
}

/// The browser after the moves of `k`, in order: up, down (ten lines with the command
/// modifier), page up, page down (twenty lines), within a window of thirty lines.
pub open spec fn keys_moved(v: BrowserView, k: BrowserKeys) -> BrowserView {
    let step = if k.ctrl {
        10int
    } else {
        1int
    };
    let v1 = if k.up {
        moved_up(v, step)
    } else {
        v
    };
    let v2 = if k.down {
        moved_down(v1, step, 30)
    } else {
        v1
    };
    let v3 = if k.page_up {
        moved_up(v2, 20)
    } else {
        v2
    };
    if k.page_down {
        moved_down(v3, 20, 30)
    } else {
        v3
    }
}

/// The moves of the keys `k` (see [`keys_moved`]) compute no position past the machine limit
/// (see [`down_fits`]).
pub open spec fn keys_fit(v: BrowserView, k: BrowserKeys) -> bool {
    let step = if k.ctrl {
        10int
    } else {
        1int
    };
    let v1 = if k.up {
        moved_up(v, step)
    } else {
        v
    };
    let v2 = if k.down {
        moved_down(v1, step, 30)
    } else {
        v1
    };
    let v3 = if k.page_up {
        moved_up(v2, 20)
    } else {
        v2
    };
    &&& k.down ==> down_fits(v1, step, 30)
    &&& k.page_down ==> down_fits(v3, 20, 30)
}

impl SampleBrowserState {
    /// Applies the keys of one frame and says whether the line under the cursor is to be
    /// opened (previewed) and whether the search field is to take the focus. Nothing happens
    /// while another widget has the focus. While the search field has it, escape clears the
    /// search. Otherwise, when the browser owns the keyboard: the moves of
    /// [`keys_moved`], then the left arrow collapses at the cursor, and escape drops a
    /// non-empty search.
    pub fn handle_keys(
        &mut self,
        k: &BrowserKeys,
        search_focused: bool,
        owns_input: bool,
        other_focus: bool,
    ) -> (r: (bool, bool))
        requires
            !other_focus && !search_focused && owns_input ==> keys_fit(old(self)@, *k),
        ensures
            if other_focus || (!search_focused && !owns_input) {
                final(self)@ == old(self)@ && r == (false, false)
            } else if search_focused {
                final(self)@ == (if k.escape {
                    search_cleared(old(self)@)
                } else {
                    old(self)@
                }) && r == (false, false)
            } else {
                let v4 = keys_moved(old(self)@, *k);
                &&& r == (k.activate, k.slash)
                &&& exists|v5: BrowserView|
                    {
                        &&& (if k.left {
                            collapsed(v4, v5)
                        } else {
                            v5 == v4
                        })
                        &&& final(self)@ == if k.escape && v5.search_query.len() > 0 {
                            search_cleared(v5)
                        } else {
                            v5
                        }
                    }
            },
    {
        if other_focus {
            return (false, false);
        }
        if search_focused {
            if k.escape {
                self.clear_search();
            }
            return (false, false);
        }
        if !owns_input {
            return (false, false);
        }
        let step: usize = if k.ctrl {
            10
        } else {
            1
        };
        if k.up {
            self.move_up(step);
        }
        if k.down {
            self.move_down(step, 30);
        }
        if k.page_up {
            self.move_up(20);
        }
        if k.page_down {
            self.move_down(20, 30);
        }
        let ghost v4 = self@;
        if k.left {
            self.collapse_at_cursor();
        }
        let ghost v5 = self@;
        if k.escape && self.search_query.as_str().unicode_len() > 0 {
            self.clear_filter();
        }
        proof {
            assert(v4 == keys_moved(old(self)@, *k));
            assert(if k.left {
                collapsed(v4, v5)
            } else {
                v5 == v4
            });
            assert(self@ == if k.escape && v5.search_query.len() > 0 {
                search_cleared(v5)
            } else {
                v5
            });
        }
        (k.activate, k.slash)
    }
}

} // verus!
