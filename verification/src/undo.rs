//! Persistent undo history for one document.
//!
//! Every committed snapshot is kept in a tree: committing after an undo
//! starts a new sibling branch instead of discarding the old future. A
//! cursor marks the snapshot the editor currently shows; `undo` moves it
//! to the parent, `redo` to the most recently created child.

use vstd::prelude::*;

verus! {

/// Mathematical model of one node: the snapshot text, the parent index
/// (`None` only at the root), and the child indices in creation order.
#[verifier::ext_equal]
pub struct NodeView {
    pub state: Seq<char>,
    pub parent: Option<int>,
    pub children: Seq<int>,
}

/// Mathematical model of the whole tree: the nodes in creation order and
/// the index of the current node.
#[verifier::ext_equal]
pub struct TreeView {
    pub nodes: Seq<NodeView>,
    pub current: int,
}

impl TreeView {
    /// Shape of a well-formed tree: non-empty, the cursor in bounds, the
    /// first node the only root, parents created before their children,
    /// and every child index pointing at a later node.
    pub open spec fn wf(self) -> bool {
        &&& 0 < self.nodes.len()
        &&& 0 <= self.current < self.nodes.len()
        &&& self.nodes[0].parent is None
        &&& forall|i: int|
            #![trigger self.nodes[i]]
            1 <= i < self.nodes.len() ==> match self.nodes[i].parent {
                Some(p) => 0 <= p < i,
                None => false,
            }
        &&& forall|i: int, j: int|
            #![trigger self.nodes[i].children[j]]
            0 <= i < self.nodes.len() && 0 <= j < self.nodes[i].children.len()
                ==> i < self.nodes[i].children[j] < self.nodes.len()
    }

    /// The tree holding a single root snapshot.
    pub open spec fn init(s: Seq<char>) -> TreeView {
        TreeView {
            nodes: seq![NodeView { state: s, parent: None, children: Seq::empty() }],
            current: 0,
        }
    }

    /// The snapshot at the current node.
    pub open spec fn current_snapshot(self) -> Seq<char> {
        self.nodes[self.current].state
    }

    /// The tree after committing `s`: a new node is appended as the last
    /// child of the current node and becomes current.
    pub open spec fn commit(self, s: Seq<char>) -> TreeView {
        let n = self.nodes.len() as int;
        let cur = self.nodes[self.current];
        let widened = NodeView { children: cur.children.push(n), ..cur };
        TreeView {
            nodes: self.nodes.update(self.current, widened).push(
                NodeView { state: s, parent: Some(self.current), children: Seq::empty() },
            ),
            current: n,
        }
    }

    /// Whether the current node has a parent to step back to.
    pub open spec fn can_undo(self) -> bool {
        self.nodes[self.current].parent is Some
    }

    /// The tree after an undo: the cursor moves to the parent, or stays
    /// put at the root.
    pub open spec fn undo(self) -> TreeView {
        match self.nodes[self.current].parent {
            Some(p) => TreeView { current: p, ..self },
            None => self,
        }
    }

    /// Whether the current node has a branch to step forward into.
    pub open spec fn can_redo(self) -> bool {
        self.nodes[self.current].children.len() > 0
    }

    /// The tree after a redo: the cursor moves to the most recently
    /// created child, or stays put at a leaf.
    pub open spec fn redo(self) -> TreeView {
        if self.can_redo() {
            TreeView { current: self.nodes[self.current].children.last(), ..self }
        } else {
            self
        }
    }
}

struct UndoNode {
    state: String,
    parent: Option<usize>,
    children: Vec<usize>,
}

impl View for UndoNode {
    type V = NodeView;

    closed spec fn view(&self) -> NodeView {
        NodeView {
            state: self.state@,
            parent: match self.parent {
                Some(p) => Some(p as int),
                None => None,
            },
            children: Seq::new(self.children@.len(), |i: int| self.children@[i] as int),
        }
    }
}

/// A history tree of full-text snapshots with a cursor on the snapshot
/// the editor currently shows. Nodes are held in an arena in creation
/// order and addressed by index; no node is ever removed.
pub struct UndoTree {
    nodes: Vec<UndoNode>,
    current: usize,
}

impl View for UndoTree {
    type V = TreeView;

    closed spec fn view(&self) -> TreeView {
        TreeView {
            nodes: Seq::new(self.nodes@.len(), |i: int| self.nodes@[i]@),
            current: self.current as int,
        }
    }
}

impl UndoTree {
    /// The tree is well-formed; established by `new` and preserved by
    /// every operation.
    pub open spec fn inv(&self) -> bool {
        self@.wf()
    }

    /// Creates a tree seeded with `initial_state` as its root snapshot.
    pub fn new(initial_state: &str) -> (t: Self)
        ensures
            t.inv(),
            t@ == TreeView::init(initial_state@),
    {
        let root = UndoNode { state: initial_state.to_owned(), parent: None, children: Vec::new() };
        let mut nodes = Vec::new();
        nodes.push(root);
        let t = UndoTree { nodes, current: 0 };
        proof {
            assert(t@ =~~= TreeView::init(initial_state@));
        }
        t
    }

    /// Saves `new_state` as a fresh snapshot: a new node is appended as
    /// the last child of the current node and the cursor moves onto it.
    /// The snapshot the tree then shows is exactly `new_state`.
    pub fn commit(&mut self, new_state: String)
        requires
            old(self).inv(),
        ensures
            final(self).inv(),
            final(self)@ == old(self)@.commit(new_state@),
            final(self)@.current_snapshot() == new_state@,
    {
        let n = self.nodes.len();
        let cur = self.current;
        let node = UndoNode { state: new_state, parent: Some(cur), children: Vec::new() };
        self.nodes.push(node);
        let child_list = &mut self.nodes[cur].children;
        child_list.push(n);
        self.current = n;
        proof {
            assert(self@ =~~= old(self)@.commit(self@.nodes[n as int].state));
        }
    }

    /// Steps back to the parent snapshot. At the root there is nothing
    /// to undo: the tree is left unchanged and `false` is returned so
    /// the caller can surface the notice.
    pub fn undo(&mut self) -> (moved: bool)
        requires
            old(self).inv(),
        ensures
            final(self).inv(),
            final(self)@ == old(self)@.undo(),
            moved == old(self)@.can_undo(),
    {
        match self.nodes[self.current].parent {
            Some(p) => {
                self.current = p;
                proof {
                    assert(self@ =~~= old(self)@.undo());
                }
                true
            },
            None => {
                proof {
                    assert(self@ =~~= old(self)@.undo());
                }
                false
            },
        }
    }

    /// Steps forward into the most recently created branch. At a leaf
    /// there is nothing to redo: the tree is left unchanged and `false`
    /// is returned so the caller can surface the notice.
    pub fn redo(&mut self) -> (moved: bool)
        requires
            old(self).inv(),
        ensures
            final(self).inv(),
            final(self)@ == old(self)@.redo(),
            moved == old(self)@.can_redo(),
    {
        let child_count = self.nodes[self.current].children.len();
        if child_count > 0 {
            let c = self.nodes[self.current].children[child_count - 1];
            self.current = c;
            proof {
                assert(self@ =~~= old(self)@.redo());
            }
            true
        } else {
            proof {
                assert(self@ =~~= old(self)@.redo());
            }
            false
        }
    }

    /// Returns a copy of the snapshot at the current node.
    pub fn current_state(&self) -> (s: String)
        requires
            self.inv(),
        ensures
            s@ == self@.current_snapshot(),
    {
        self.nodes[self.current].state.clone()
    }
}

/// Law: committing preserves well-formedness, and the tree then shows
/// exactly the committed snapshot, whatever was committed before.
pub proof fn lemma_commit_shows_committed(t: TreeView, s: Seq<char>)
    requires
        t.wf(),
    ensures
        t.commit(s).wf(),
        t.commit(s).current_snapshot() == s,
{
    let c = t.commit(s);
    let n = t.nodes.len() as int;
    assert forall|i: int|
        #![trigger c.nodes[i]]
        1 <= i < c.nodes.len() implies match c.nodes[i].parent {
        Some(p) => 0 <= p < i,
        None => false,
    } by {
        if i < n {
            assert(c.nodes[i].parent == t.nodes[i].parent);
        }
    }
    assert forall|i: int, j: int|
        #![trigger c.nodes[i].children[j]]
        0 <= i < c.nodes.len() && 0 <= j < c.nodes[i].children.len() implies i < c.nodes[i].children[j]
        < c.nodes.len() by {
        if i == t.current {
            if j < t.nodes[i].children.len() {
                assert(c.nodes[i].children[j] == t.nodes[i].children[j]);
            } else {
                assert(c.nodes[i].children[j] == n);
            }
        } else if i < n {
            assert(c.nodes[i].children == t.nodes[i].children);
        }
    }
}

/// Law: undoing at the root is a no-op that stays a no-op however often
/// it is repeated.
pub proof fn lemma_undo_at_root_no_op(t: TreeView)
    requires
        t.wf(),
        !t.can_undo(),
    ensures
        t.undo() == t,
        t.undo().undo() == t,
{
}

/// Law: commit, undo, redo restores the committed snapshot, because the
/// committed node stays the last child of the node returned to.
pub proof fn lemma_commit_undo_redo_round_trip(t: TreeView, s: Seq<char>)
    requires
        t.wf(),
    ensures
        t.commit(s).undo().wf(),
        t.commit(s).undo().redo().current_snapshot() == s,
{
    lemma_commit_shows_committed(t, s);
    let c = t.commit(s);
    let n = t.nodes.len() as int;
    assert(c.nodes[n].parent == Some(t.current));
    assert(c.undo().current == t.current);
    assert(c.undo().nodes[t.current].children.last() == n);
}

/// Law: redo follows the most recently created branch. After committing
/// `a`, undoing, and committing `b`, an undo followed by a redo lands on
/// `b`, not on the older branch holding `a`.
pub proof fn lemma_redo_follows_last_branch(t: TreeView, a: Seq<char>, b: Seq<char>)
    requires
        t.wf(),
    ensures
        t.commit(a).undo().commit(b).undo().redo().current_snapshot() == b,
{
    lemma_commit_shows_committed(t, a);
    let t1 = t.commit(a);
    let n0 = t.nodes.len() as int;
    assert(t1.nodes[n0].parent == Some(t.current));
    let t2 = t1.undo();
    assert(t2.current == t.current);
    lemma_commit_shows_committed(t2, b);
    let t3 = t2.commit(b);
    let n1 = t1.nodes.len() as int;
    assert(t3.nodes[n1].parent == Some(t.current));
    let t4 = t3.undo();
    assert(t4.current == t.current);
    assert(t4.nodes[t.current].children.last() == n1);
    assert(t4.redo().current_snapshot() == t3.nodes[n1].state);
}

} // verus!
