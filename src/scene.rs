use vstd::prelude::*;

verus! {

/// Identity of a node in the engine's pool: slot index and generation.
#[derive(Clone, Copy, Debug, PartialEq, Eq, Structural, Hash)]
pub struct NodeHandle {
    pub index: u32,
    pub generation: u32,
}

/// The node variants that picking tells apart.
#[derive(Clone, Copy, Debug, PartialEq, Eq, Structural)]
pub enum NodeKind {
    /// A plain transform node (a pivot).
    Base,
    Camera,
    Mesh,
    /// Lights, sprites, particle systems and the rest.
    Other,
}

/// One node of a scene-graph snapshot.
#[derive(Debug)]
pub struct SceneNode {
    pub handle: NodeHandle,
    pub kind: NodeKind,
    /// Global visibility: the node and all its ancestors are visible.
    pub visible: bool,
    /// Slot of the parent; `None` only for the root in slot 0.
    pub parent: Option<usize>,
    /// Slots of the children, each after this node's slot.
    pub children: Vec<usize>,
}

/// A snapshot of a scene graph. The root sits in slot 0 and every node sits
/// after its parent, so walking from a node towards its children always
/// moves to later slots.
#[derive(Debug)]
pub struct SceneGraph {
    pub nodes: Vec<SceneNode>,
}

impl SceneGraph {
    pub open spec fn len(&self) -> int {
        self.nodes@.len() as int
    }

    pub open spec fn parent_of(&self, i: int) -> Option<usize> {
        self.nodes@[i].parent
    }

    pub open spec fn children_of(&self, i: int) -> Seq<usize> {
        self.nodes@[i].children@
    }

    pub open spec fn handle_of(&self, i: int) -> NodeHandle {
        self.nodes@[i].handle
    }

    /// The slot that holds `h`, or -1.
    pub open spec fn slot_of(&self, h: NodeHandle) -> int {
        if exists|i: int| 0 <= i < self.len() && self.handle_of(i) == h {
            choose|i: int| 0 <= i < self.len() && self.handle_of(i) == h
        } else {
            -1
        }
    }

    pub open spec fn wf(&self) -> bool {
        &&& 1 <= self.len() <= usize::MAX
        &&& forall|i: int, j: int|
            0 <= i < j < self.len() ==> #[trigger] self.handle_of(i) != #[trigger] self.handle_of(j)
        &&& self.parent_of(0) is None
        &&& forall|i: int|
            0 < i < self.len() ==> {
                &&& #[trigger] self.parent_of(i) is Some
                &&& self.parent_of(i)->0 < i
                &&& self.children_of(self.parent_of(i)->0 as int).contains(i as usize)
            }
        &&& forall|i: int|
            0 <= i < self.len() ==> {
                &&& (#[trigger] self.children_of(i)).no_duplicates()
                &&& forall|k: int|
                    0 <= k < self.children_of(i).len() ==> {
                        &&& i < #[trigger] self.children_of(i)[k] < self.len()
                        &&& self.parent_of(self.children_of(i)[k] as int) == Some(i as usize)
                    }
            }
    }

    /// A graph holding only its root.
    pub fn new(root: NodeHandle, kind: NodeKind, visible: bool) -> (g: SceneGraph)
        ensures
            g.wf(),
            g.len() == 1,
            g.handle_of(0) == root,
            g.nodes@[0].kind == kind,
            g.nodes@[0].visible == visible,
            g.children_of(0).len() == 0,
    {
        let node = SceneNode { handle: root, kind, visible, parent: None, children: Vec::new() };
        let mut nodes = Vec::new();
        nodes.push(node);
        SceneGraph { nodes }
    }

    /// Appends a node as the last child of the node in slot `parent`, and
    /// returns its slot.
    pub fn add_node(&mut self, parent: usize, handle: NodeHandle, kind: NodeKind, visible: bool) -> (slot: usize)
        requires
            old(self).wf(),
            parent < old(self).len(),
            old(self).len() < usize::MAX,
            forall|i: int| 0 <= i < old(self).len() ==> #[trigger] old(self).handle_of(i) != handle,
        ensures
            final(self).wf(),
            slot == old(self).len(),
            final(self).len() == old(self).len() + 1,
            final(self).handle_of(slot as int) == handle,
            final(self).nodes@[slot as int].kind == kind,
            final(self).nodes@[slot as int].visible == visible,
            final(self).parent_of(slot as int) == Some(parent),
            final(self).children_of(slot as int).len() == 0,
            final(self).children_of(parent as int) == old(self).children_of(parent as int).push(slot),
            forall|i: int|
                0 <= i < old(self).len() && i != parent ==> #[trigger] final(self).nodes@[i]
                    == old(self).nodes@[i],
            forall|i: int|
                0 <= i < old(self).len() ==> {
                    &&& #[trigger] final(self).handle_of(i) == old(self).handle_of(i)
                    &&& final(self).nodes@[i].kind == old(self).nodes@[i].kind
                    &&& final(self).nodes@[i].visible == old(self).nodes@[i].visible
                    &&& final(self).parent_of(i) == old(self).parent_of(i)
                },
    {
        let slot = self.nodes.len();
        let ghost g0 = *self;
        let mut kids = self.nodes[parent].children.clone();
        proof {
            assert(kids@ == g0.children_of(parent as int));
        }
        kids.push(slot);
        let old_node = &self.nodes[parent];
        let updated = SceneNode {
            handle: old_node.handle,
            kind: old_node.kind,
            visible: old_node.visible,
            parent: old_node.parent,
            children: kids,
        };
        self.nodes.set(parent, updated);
        self.nodes.push(SceneNode { handle, kind, visible, parent: Some(parent), children: Vec::new() });
        proof {
            let g = *self;
            assert(g.children_of(slot as int) =~= Seq::<usize>::empty());
            assert forall|j: int| 0 <= j < slot implies #[trigger] g.parent_of(j) == g0.parent_of(j)
                && (j != parent ==> g.nodes@[j] == g0.nodes@[j]) by {}
            assert(g.parent_of(slot as int) == Some(parent));
            assert forall|i: int, j: int| 0 <= i < j < g.len() implies
                #[trigger] g.handle_of(i) != #[trigger] g.handle_of(j) by {
                if j < slot {
                    assert(g0.handle_of(i) != g0.handle_of(j));
                } else {
                    assert(g0.handle_of(i) != handle);
                }
            }
            assert forall|i: int| 0 < i < g.len() implies {
                &&& #[trigger] g.parent_of(i) is Some
                &&& g.parent_of(i)->0 < i
                &&& g.children_of(g.parent_of(i)->0 as int).contains(i as usize)
            } by {
                if i < slot {
                    let p = g0.parent_of(i)->0 as int;
                    if p == parent {
                        assert(g.children_of(p)[g0.children_of(p).index_of(i as usize)] == i as usize);
                    }
                } else {
                    assert(g.children_of(parent as int)[g0.children_of(parent as int).len() as int] == slot);
                }
            }
            assert forall|i: int| 0 <= i < g.len() implies {
                &&& (#[trigger] g.children_of(i)).no_duplicates()
                &&& forall|k: int|
                    0 <= k < g.children_of(i).len() ==> {
                        &&& i < #[trigger] g.children_of(i)[k] < g.len()
                        &&& g.parent_of(g.children_of(i)[k] as int) == Some(i as usize)
                    }
            } by {
                if i < slot && i != parent {
                    assert(g.children_of(i) == g0.children_of(i));
                    assert forall|k: int| 0 <= k < g.children_of(i).len() implies {
                        &&& i < #[trigger] g.children_of(i)[k] < g.len()
                        &&& g.parent_of(g.children_of(i)[k] as int) == Some(i as usize)
                    } by {
                        assert(g0.children_of(i)[k] < slot);
                    }
                }
                if i == parent {
                    assert forall|k: int| 0 <= k < g.children_of(i).len() implies {
                        &&& i < #[trigger] g.children_of(i)[k] < g.len()
                        &&& g.parent_of(g.children_of(i)[k] as int) == Some(i as usize)
                    } by {
                        if k < g0.children_of(i).len() {
                            assert(g.children_of(i)[k] == g0.children_of(i)[k]);
                            assert(g0.children_of(i)[k] < slot);
                        }
                    }
                    assert forall|a: int, b: int| 0 <= a < b < g.children_of(i).len()
                        implies g.children_of(i)[a] != g.children_of(i)[b] by {
                        if b == g.children_of(i).len() - 1 {
                            assert(g0.children_of(i)[a] < g0.len());
                        }
                    }
                }
            }
        }
        slot
    }

    /// The first slot holding `handle`, if any.
    pub fn find(&self, handle: NodeHandle) -> (r: Option<usize>)
        requires
            self.wf(),
        ensures
            r matches Some(i) ==> i == self.slot_of(handle),
            r is None ==> self.slot_of(handle) == -1,
            r matches Some(i) ==> i < self.len() && self.handle_of(i as int) == handle,
            r is None ==> forall|i: int| 0 <= i < self.len() ==> #[trigger] self.handle_of(i) != handle,
    {
        let mut i: usize = 0;
        while i < self.nodes.len()
            invariant
                self.wf(),
                i <= self.len(),
                forall|j: int| 0 <= j < i ==> #[trigger] self.handle_of(j) != handle,
            decreases self.len() - i,
        {
            if self.nodes[i].handle == handle {
                proof {
                    assert(self.handle_of(i as int) == handle);
                    let k = self.slot_of(handle);
                    assert(0 <= k < self.len() && self.handle_of(k) == handle);
                    if k != i {
                        if k < i {
                            assert(self.handle_of(k) != handle);
                        } else {
                            assert(self.handle_of(i as int) != self.handle_of(k));
                        }
                    }
                }
                return Some(i);
            }
            i = i + 1;
        }
        None
    }
}

} // verus!
