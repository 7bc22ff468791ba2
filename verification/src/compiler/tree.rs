//! Syntax trees as the transpiler reads them: nodes in preorder, each with
//! its kind, its byte range in the source, its parent and the end of its
//! subtree; and a cursor that walks them.

use vstd::prelude::*;

use crate::compiler::constants::node_kind::NodeKind;

verus! {

/// A syntax node: its kind and the byte range `start_byte..end_byte` of the
/// source that it covers.
#[derive(Clone, Copy, Debug)]
pub struct SyntaxNode {
    pub kind: NodeKind,
    pub start_byte: usize,
    pub end_byte: usize,
}

/// A node with its place in a tree whose nodes are stored in preorder:
/// the index of its parent, the index one past its last descendant, and its
/// depth.
#[derive(Clone, Copy, Debug)]
pub struct TreeEntry {
    pub node: SyntaxNode,
    pub parent: Option<usize>,
    pub subtree_end: usize,
    pub depth: usize,
}

/// The first child of entry `i`, if it has children.
pub open spec fn first_child_of(es: Seq<TreeEntry>, i: int) -> Option<int> {
    if es[i].subtree_end > i + 1 {
        Some(i + 1)
    } else {
        None
    }
}

/// The next sibling of entry `i`, if it has one.
pub open spec fn next_sibling_of(es: Seq<TreeEntry>, i: int) -> Option<int> {
    match es[i].parent {
        Some(p) => if es[i].subtree_end < es[p as int].subtree_end {
            Some(es[i].subtree_end as int)
        } else {
            None
        },
        None => None,
    }
}

/// The parent of entry `i`, if it is not the root.
pub open spec fn parent_of(es: Seq<TreeEntry>, i: int) -> Option<int> {
    match es[i].parent {
        Some(p) => Some(p as int),
        None => None,
    }
}

/// In a well-formed tree, the first child of a node and its next sibling
/// have the node, and the node's parent, as their parent: a move down and
/// a move up, or a move to the next sibling and a move up, end where one
/// move up from the node ends.
pub proof fn lemma_moves_round_trip(es: Seq<TreeEntry>, i: int)
    requires
        entries_wf(es),
        0 <= i < es.len(),
    ensures
        first_child_of(es, i) matches Some(c) ==> parent_of(es, c) == Some(i),
        next_sibling_of(es, i) matches Some(s) ==> parent_of(es, s) == parent_of(es, i),
        next_sibling_of(es, i) matches Some(s) ==> i < s < es.len(),
        first_child_of(es, i) matches Some(c) ==> c < es.len(),
{
    assert(entry_wf(es, i));
    if let Some(p) = es[i].parent {
        assert(entry_wf(es, p as int));
    }
}

/// The conditions that entry `i` meets in a well-formed tree.
pub open spec fn entry_wf(es: Seq<TreeEntry>, i: int) -> bool {
    &&& i < es[i].subtree_end <= es.len()
    &&& (i == 0 <==> es[i].parent is None)
    &&& i == 0 ==> es[i].depth == 0 && es[i].subtree_end == es.len()
    &&& es[i].parent matches Some(p) ==> {
        &&& p < i
        &&& es[i].subtree_end <= es[p as int].subtree_end
        &&& es[i].depth == es[p as int].depth + 1
        &&& es[i].subtree_end < es[p as int].subtree_end ==> es[es[i].subtree_end as int].parent
            == Some(p)
    }
    &&& es[i].subtree_end > i + 1 ==> es[i + 1].parent == Some(i as usize)
}

/// `es` is a tree in preorder: the root first, every subtree a contiguous
/// range that starts with its root, children in order.
pub open spec fn entries_wf(es: Seq<TreeEntry>) -> bool {
    &&& 0 < es.len() < usize::MAX
    &&& forall|i: int| 0 <= i < es.len() ==> #[trigger] entry_wf(es, i)
}

/// The leaves of `es` (its entries without children) lie in the source in
/// order, without overlapping.
pub open spec fn leaves_in_order(es: Seq<TreeEntry>) -> bool {
    forall|i: int, j: int|
        0 <= i < j < es.len() && first_child_of(es, i) is None && first_child_of(es, j) is None
            ==> #[trigger] es[i].node.end_byte <= #[trigger] es[j].node.start_byte
}

/// Every `switch` statement of `es` has children.
pub open spec fn switches_have_children(es: Seq<TreeEntry>) -> bool {
    forall|i: int|
        0 <= i < es.len() && #[trigger] es[i].node.kind == NodeKind::SwitchStatement ==> first_child_of(es, i) is Some
}

/// Whether entry `i` of `es` lies in the source text of `len` bytes.
pub open spec fn entry_fits(es: Seq<TreeEntry>, i: int, len: int) -> bool {
    es[i].node.start_byte <= es[i].node.end_byte <= len
}

/// A syntax tree.
#[derive(Debug)]
pub struct SyntaxTree {
    entries: Vec<TreeEntry>,
}

impl SyntaxTree {
    /// The nodes of the tree with their places, in preorder.
    pub closed spec fn entries(&self) -> Seq<TreeEntry> {
        self.entries@
    }

    /// The tree is well formed.
    pub open spec fn wf(&self) -> bool {
        entries_wf(self.entries())
    }

    /// Every node lies in a source text of `len` bytes.
    pub open spec fn fits(&self, len: int) -> bool {
        forall|i: int| 0 <= i < self.entries().len() ==> #[trigger] entry_fits(self.entries(), i, len)
    }

    /// The tree made of `entries`, if they form a well-formed tree.
    pub fn from_entries(entries: Vec<TreeEntry>) -> (tree: Option<SyntaxTree>)
        ensures
            tree is Some <==> entries_wf(entries@),
            tree matches Some(t) ==> t.entries() == entries@,
    {
        let len = entries.len();
        if len == 0 || len == usize::MAX {
            return None;
        }
        let mut i: usize = 0;
        while i < len
            invariant
                len == entries@.len(),
                0 < len < usize::MAX,
                i <= len,
                forall|j: int| 0 <= j < i ==> #[trigger] entry_wf(entries@, j),
            decreases len - i,
        {
            let e = entries[i];
            if !(i < e.subtree_end && e.subtree_end <= len) {
                assert(!entry_wf(entries@, i as int));
                return None;
            }
            if (i == 0) != e.parent.is_none() {
                assert(!entry_wf(entries@, i as int));
                return None;
            }
            if i == 0 && !(e.depth == 0 && e.subtree_end == len) {
                assert(!entry_wf(entries@, i as int));
                return None;
            }
            if let Some(p) = e.parent {
                if p >= i {
                    assert(!entry_wf(entries@, i as int));
                    return None;
                }
                let pe = entries[p];
                assert(entry_wf(entries@, p as int));
                if !(e.subtree_end <= pe.subtree_end) || pe.depth >= usize::MAX || e.depth != pe.depth + 1 {
                    assert(!entry_wf(entries@, i as int));
                    return None;
                }
                if e.subtree_end < pe.subtree_end {
                    match entries[e.subtree_end].parent {
                        Some(q) => {
                            if q != p {
                                assert(!entry_wf(entries@, i as int));
                                return None;
                            }
                        },
                        None => {
                            assert(!entry_wf(entries@, i as int));
                            return None;
                        },
                    }
                }
            }
            if e.subtree_end > i + 1 {
                match entries[i + 1].parent {
                    Some(q) => {
                        if q != i {
                            assert(!entry_wf(entries@, i as int));
                            return None;
                        }
                    },
                    None => {
                        assert(!entry_wf(entries@, i as int));
                        return None;
                    },
                }
            }
            assert(entry_wf(entries@, i as int));
            i += 1;
        }
        Some(SyntaxTree { entries })
    }

    /// The number of nodes.
    pub fn len(&self) -> (len: usize)
        ensures
            len == self.entries().len(),
    {
        self.entries.len()
    }

    /// Whether every `switch` statement of the tree has children.
    pub fn has_switch_children(&self) -> (has: bool)
        ensures
            has == switches_have_children(self.entries()),
    {
        let mut i: usize = 0;
        while i < self.entries.len()
            invariant
                i <= self.entries@.len(),
                forall|j: int|
                    0 <= j < i && #[trigger] self.entries()[j].node.kind == NodeKind::SwitchStatement ==> first_child_of(
                        self.entries(),
                        j,
                    ) is Some,
            decreases self.entries@.len() - i,
        {
            let entry = self.entries[i];
            if entry.node.kind == NodeKind::SwitchStatement && !(entry.subtree_end > i + 1) {
                assert(self.entries()[i as int].node.kind == NodeKind::SwitchStatement);
                return false;
            }
            i += 1;
        }
        true
    }

    /// Whether every node lies in a source text of `len` bytes.
    pub fn fits_source(&self, len: usize) -> (fits: bool)
        ensures
            fits == self.fits(len as int),
    {
        let mut i: usize = 0;
        while i < self.entries.len()
            invariant
                i <= self.entries@.len(),
                forall|j: int| 0 <= j < i ==> #[trigger] entry_fits(self.entries(), j, len as int),
            decreases self.entries@.len() - i,
        {
            let node = self.entries[i].node;
            if !(node.start_byte <= node.end_byte && node.end_byte <= len) {
                assert(!entry_fits(self.entries(), i as int, len as int));
                return false;
            }
            i += 1;
        }
        true
    }

    /// A cursor on the root of the tree.
    pub fn walk(&self) -> (cursor: SyntaxCursor<'_>)
        requires
            self.wf(),
        ensures
            cursor.tree() == self,
            cursor.position() == 0,
    {
        SyntaxCursor { tree: self, current: 0 }
    }
}

/// The entries of a builder once every open node is closed: each open node
/// ends where the entries end.
pub open spec fn closed_entries(entries: Seq<TreeEntry>, open: Seq<usize>) -> Seq<TreeEntry> {
    Seq::new(
        entries.len(),
        |j: int|
            if open.contains(j as usize) {
                TreeEntry { subtree_end: entries.len() as usize, ..entries[j] }
            } else {
                entries[j]
            },
    )
}

/// Builds a syntax tree node by node in preorder: a node is opened as the
/// last child of the innermost open node, and closed after its descendants.
#[derive(Debug)]
pub struct TreeBuilder {
    entries: Vec<TreeEntry>,
    open: Vec<usize>,
}

impl TreeBuilder {
    #[verifier::type_invariant]
    closed spec fn open_in_range(self) -> bool {
        forall|k: int| 0 <= k < self.open@.len() ==> self.open@[k] < self.entries@.len()
    }

    /// The entries added so far; open nodes have no end yet.
    pub closed spec fn entries(&self) -> Seq<TreeEntry> {
        self.entries@
    }

    /// The indices of the open nodes, outermost first.
    pub closed spec fn open_nodes(&self) -> Seq<usize> {
        self.open@
    }

    /// A builder with no nodes.
    pub fn new() -> (builder: Self)
        ensures
            builder.entries() == Seq::<TreeEntry>::empty(),
            builder.open_nodes() == Seq::<usize>::empty(),
    {
        TreeBuilder { entries: Vec::new(), open: Vec::new() }
    }

    /// Adds `node` as the last child of the innermost open node, or as a
    /// root if no node is open, and opens it.
    pub fn open_node(&mut self, node: SyntaxNode)
        ensures
            final(self).entries() == old(self).entries().push(
                TreeEntry {
                    node,
                    parent: if old(self).open_nodes().len() == 0 {
                        None
                    } else {
                        Some(old(self).open_nodes().last())
                    },
                    subtree_end: 0,
                    depth: old(self).open_nodes().len() as usize,
                },
            ),
            final(self).open_nodes() == old(self).open_nodes().push(old(self).entries().len() as usize),
    {
        let mut taken = TreeBuilder::new();
        std::mem::swap(self, &mut taken);
        proof {
            use_type_invariant(&taken);
        }
        let TreeBuilder { mut entries, mut open } = taken;
        let index = entries.len();
        let depth = open.len();
        let parent = if depth == 0 {
            None
        } else {
            Some(open[depth - 1])
        };
        entries.push(TreeEntry { node, parent, subtree_end: 0, depth });
        open.push(index);
        *self = TreeBuilder { entries, open };
    }

    /// Closes the innermost open node: its subtree ends where the entries
    /// end now. Returns false, and changes nothing, if no node is open.
    pub fn close_node(&mut self) -> (closed: bool)
        ensures
            closed == (old(self).open_nodes().len() > 0),
            closed ==> {
                let i = old(self).open_nodes().last() as int;
                &&& final(self).open_nodes() == old(self).open_nodes().drop_last()
                &&& final(self).entries() == old(self).entries().update(
                    i,
                    TreeEntry { subtree_end: old(self).entries().len() as usize, ..old(self).entries()[i] },
                )
            },
            !closed ==> final(self).open_nodes() == old(self).open_nodes() && final(self).entries()
                == old(self).entries(),
    {
        let mut taken = TreeBuilder::new();
        std::mem::swap(self, &mut taken);
        proof {
            use_type_invariant(&taken);
        }
        let TreeBuilder { mut entries, mut open } = taken;
        let closed = match open.pop() {
            Some(i) => {
                let len = entries.len();
                let mut entry = entries[i];
                entry.subtree_end = len;
                entries.set(i, entry);
                true
            },
            None => false,
        };
        *self = TreeBuilder { entries, open };
        closed
    }

    /// Closes every open node and returns the tree, if the nodes form one.
    pub fn finish(self) -> (tree: Option<SyntaxTree>)
        ensures
            tree is Some <==> entries_wf(closed_entries(self.entries(), self.open_nodes())),
            tree matches Some(t) ==> t.entries() == closed_entries(self.entries(), self.open_nodes()),
    {
        proof {
            use_type_invariant(&self);
        }
        let ghost target = closed_entries(self.entries(), self.open_nodes());
        let TreeBuilder { mut entries, mut open } = self;
        while open.len() > 0
            invariant
                entries@.len() == target.len(),
                forall|k: int| 0 <= k < open@.len() ==> open@[k] < entries@.len(),
                closed_entries(entries@, open@) == target,
            decreases open@.len(),
        {
            let ghost before = open@;
            let ghost entries_before = entries@;
            let i = open.pop().unwrap();
            let len = entries.len();
            let mut entry = entries[i];
            entry.subtree_end = len;
            entries.set(i, entry);
            assert(before == open@.push(i));
            assert(closed_entries(entries@, open@) =~= target) by {
                assert forall|j: int| 0 <= j < target.len() implies closed_entries(
                    entries@,
                    open@,
                )[j] == closed_entries(entries_before, before)[j] by {
                    if j == i as int {
                        assert(before[before.len() - 1] == i);
                        assert(before.contains(i));
                    } else {
                        assert(entries@[j] == entries_before[j]);
                        if open@.contains(j as usize) {
                            let k = choose|k: int| 0 <= k < open@.len() && open@[k] == j as usize;
                            assert(before[k] == j as usize);
                        }
                        if before.contains(j as usize) {
                            let k = choose|k: int| 0 <= k < before.len() && before[k] == j as usize;
                            assert(k < open@.len());
                            assert(open@[k] == j as usize);
                        }
                    }
                }
            }
        }
        assert(closed_entries(entries@, open@) =~= entries@);
        SyntaxTree::from_entries(entries)
    }
}

/// A cursor on one node of a syntax tree, that moves to its first child, its
/// next sibling or its parent.
#[derive(Debug)]
pub struct SyntaxCursor<'tree> {
    tree: &'tree SyntaxTree,
    current: usize,
}

impl<'tree> SyntaxCursor<'tree> {
    /// The tree that the cursor walks.
    pub closed spec fn tree(&self) -> &'tree SyntaxTree {
        self.tree
    }

    /// The index of the node that the cursor is on.
    pub closed spec fn position(&self) -> int {
        self.current as int
    }

    /// The cursor is on a node of a well-formed tree.
    pub open spec fn wf(&self) -> bool {
        &&& self.tree().wf()
        &&& 0 <= self.position() < self.tree().entries().len()
    }

    /// The entries of the tree that the cursor walks.
    pub open spec fn entries(&self) -> Seq<TreeEntry> {
        self.tree().entries()
    }

    /// The node that the cursor is on.
    pub open spec fn current_node(&self) -> SyntaxNode {
        self.entries()[self.position()].node
    }

    /// The node that the cursor is on.
    pub fn node(&self) -> (node: SyntaxNode)
        requires
            self.wf(),
        ensures
            node == self.current_node(),
    {
        self.tree.entries[self.current].node
    }

    /// Moves to the first child, if there is one.
    pub fn goto_first_child(&mut self) -> (moved: bool)
        requires
            old(self).wf(),
        ensures
            final(self).wf(),
            final(self).tree() == old(self).tree(),
            moved == first_child_of(old(self).entries(), old(self).position()) is Some,
            final(self).position() == match first_child_of(old(self).entries(), old(self).position()) {
                Some(c) => c,
                None => old(self).position(),
            },
    {
        proof {
            assert(entry_wf(self.entries(), self.position()));
        }
        let entry = self.tree.entries[self.current];
        if entry.subtree_end > self.current + 1 {
            self.current = self.current + 1;
            true
        } else {
            false
        }
    }

    /// Moves to the next sibling, if there is one.
    pub fn goto_next_sibling(&mut self) -> (moved: bool)
        requires
            old(self).wf(),
        ensures
            final(self).wf(),
            final(self).tree() == old(self).tree(),
            moved == next_sibling_of(old(self).entries(), old(self).position()) is Some,
            final(self).position() == match next_sibling_of(old(self).entries(), old(self).position()) {
                Some(s) => s,
                None => old(self).position(),
            },
    {
        proof {
            assert(entry_wf(self.entries(), self.position()));
        }
        let entry = self.tree.entries[self.current];
        match entry.parent {
            Some(p) => {
                proof {
                    assert(entry_wf(self.entries(), p as int));
                }
                if entry.subtree_end < self.tree.entries[p].subtree_end {
                    self.current = entry.subtree_end;
                    true
                } else {
                    false
                }
            },
            None => false,
        }
    }

    /// Moves to the parent, if the cursor is not on the root.
    pub fn goto_parent(&mut self) -> (moved: bool)
        requires
            old(self).wf(),
        ensures
            final(self).wf(),
            final(self).tree() == old(self).tree(),
            moved == parent_of(old(self).entries(), old(self).position()) is Some,
            final(self).position() == match parent_of(old(self).entries(), old(self).position()) {
                Some(p) => p,
                None => old(self).position(),
            },
    {
        proof {
            assert(entry_wf(self.entries(), self.position()));
        }
        match self.tree.entries[self.current].parent {
            Some(p) => {
                self.current = p;
                true
            },
            None => false,
        }
    }
}

} // verus!
