use vstd::prelude::*;
use vstd::arithmetic::div_mod::{lemma_fundamental_div_mod, lemma_fundamental_div_mod_converse};
use crate::input::{CameraMotion, InputState, Key, MouseButton};
use crate::pick::{
    collect_hits, hash_selection, hit_result, hits_in, lemma_sort_by_toi, pick_hits, pick_order,
    selection_hash, sort_by_toi, sorted_by_toi, CameraPickResult, CursorPos, Probe,
};
use crate::scene::{NodeHandle, NodeKind, SceneGraph};

verus! {

/// Ranking and cycling state of one kind of pick.
#[derive(Debug)]
pub struct PickContext {
    /// Results of the last pick, nearest first.
    pub pick_list: Vec<CameraPickResult>,
    /// Which result of `pick_list` the last pick returned.
    pub pick_index: usize,
    /// Selection hash and cursor position of the last pick, if any.
    pub previous: Option<(u64, CursorPos)>,
}

impl PickContext {
    pub open spec fn wf(&self) -> bool {
        &&& self.pick_list@.len() == 0 ==> self.pick_index == 0
        &&& self.pick_list@.len() > 0 ==> self.pick_index < self.pick_list@.len()
        &&& self.previous matches Some((h, _)) ==> h == selection_hash(self.pick_list@)
    }

    /// The index a pick returns when its results hash to `hash` at `cursor`:
    /// the next one, wrapping, when both match the last pick, else the first.
    pub open spec fn next_index(&self, hash: u64, cursor: CursorPos, len: int) -> int {
        if self.previous == Some((hash, cursor)) {
            if self.pick_index + 1 >= len {
                0
            } else {
                self.pick_index + 1
            }
        } else {
            0
        }
    }

    /// `next` is this context after a selection over `list` at `cursor`
    /// that returned `r`.
    pub open spec fn selected(
        self,
        next: PickContext,
        list: Seq<CameraPickResult>,
        cursor: CursorPos,
        r: Option<CameraPickResult>,
    ) -> bool {
        let h = selection_hash(list);
        &&& next.pick_list@ == list
        &&& next.previous == Some((h, cursor))
        &&& next.pick_index == self.next_index(h, cursor, list.len() as int)
        &&& r == if list.len() == 0 {
            None
        } else {
            Some(list[next.pick_index as int])
        }
    }

    pub fn new() -> (c: PickContext)
        ensures
            c.wf(),
            c.pick_list@.len() == 0,
            c.pick_index == 0,
            c.previous is None,
    {
        PickContext { pick_list: Vec::new(), pick_index: 0, previous: None }
    }

    /// Takes a fresh result list and returns the result to select: repeated
    /// picks at the same cursor over the same results step through them.
    pub fn select(&mut self, list: Vec<CameraPickResult>, cursor: CursorPos) -> (r: Option<CameraPickResult>)
        requires
            old(self).wf(),
        ensures
            final(self).wf(),
            old(self).selected(*final(self), list@, cursor, r),
    {
        let hash = hash_selection(&list);
        let same = match self.previous {
            Some((h, c)) => h == hash && c == cursor,
            None => false,
        };
        if same {
            self.pick_index = if self.pick_index < list.len() && list.len() - self.pick_index > 1 {
                self.pick_index + 1
            } else {
                0
            };
        } else {
            self.pick_index = 0;
        }
        self.previous = Some((hash, cursor));
        self.pick_list = list;
        if self.pick_list.len() == 0 {
            None
        } else {
            Some(self.pick_list[self.pick_index])
        }
    }
}

/// The slot of `h` holds a camera.
pub open spec fn is_camera(g: &SceneGraph, h: NodeHandle) -> bool {
    g.slot_of(h) >= 0 && g.nodes@[g.slot_of(h)].kind == NodeKind::Camera
}

/// An orbiting editor camera: a pivot node that carries yaw and position,
/// and a camera node below it that carries pitch.
#[derive(Debug)]
pub struct CameraController {
    pub pivot: NodeHandle,
    pub camera: NodeHandle,
    pub input: InputState,
    /// Cycling state of picks among editor-only nodes.
    pub editor_context: PickContext,
    /// Cycling state of picks over the whole scene.
    pub scene_context: PickContext,
}

impl CameraController {
    pub open spec fn wf(&self) -> bool {
        &&& self.input.wf()
        &&& self.editor_context.wf()
        &&& self.scene_context.wf()
    }

    /// The context a pick of the given kind works on.
    pub open spec fn context(&self, editor_only: bool) -> PickContext {
        if editor_only {
            self.editor_context
        } else {
            self.scene_context
        }
    }

    /// The ranked results a pick over `graph` and `probes` lists.
    pub open spec fn ranked(graph: &SceneGraph, probes: Seq<Probe>, editor_only: bool, root: NodeHandle) -> Seq<CameraPickResult> {
        sort_by_toi(pick_hits(graph, probes, editor_only, root))
    }

    /// `next` is this controller after a pick that returned `r`: with no
    /// camera node nothing changes and nothing is hit; otherwise the context
    /// of the pick's kind selects among the ranked results and the other
    /// context is untouched.
    pub open spec fn pick_step(
        self,
        next: CameraController,
        cursor: CursorPos,
        graph: &SceneGraph,
        root: NodeHandle,
        editor_only: bool,
        probes: Seq<Probe>,
        r: Option<CameraPickResult>,
    ) -> bool {
        &&& next.pivot == self.pivot && next.camera == self.camera && next.input == self.input
        &&& if !is_camera(graph, self.camera) {
            r is None && next.editor_context == self.editor_context
                && next.scene_context == self.scene_context
        } else {
            &&& self.context(editor_only).selected(
                next.context(editor_only),
                Self::ranked(graph, probes, editor_only, root),
                cursor,
                r,
            )
            &&& next.context(!editor_only) == self.context(!editor_only)
        }
    }

    pub fn new(pivot: NodeHandle, camera: NodeHandle) -> (c: CameraController)
        ensures
            c.wf(),
            c.pivot == pivot,
            c.camera == camera,
            c.input == InputState::new_spec(),
            c.editor_context.previous is None && c.editor_context.pick_list@.len() == 0,
            c.scene_context.previous is None && c.scene_context.pick_list@.len() == 0,
    {
        CameraController {
            pivot,
            camera,
            input: InputState::new(),
            editor_context: PickContext::new(),
            scene_context: PickContext::new(),
        }
    }

    pub fn on_mouse_move(&mut self, dx: i32, dy: i32)
        requires
            old(self).wf(),
        ensures
            final(self).wf(),
            final(self).input == old(self).input.after_mouse_move(dx, dy),
            final(self).pivot == old(self).pivot && final(self).camera == old(self).camera,
            final(self).editor_context == old(self).editor_context,
            final(self).scene_context == old(self).scene_context,
    {
        self.input.on_mouse_move(dx, dy);
    }

    pub fn on_mouse_button_up(&mut self, button: MouseButton)
        requires
            old(self).wf(),
        ensures
            final(self).wf(),
            final(self).input == old(self).input.after_button(button, false),
            final(self).pivot == old(self).pivot && final(self).camera == old(self).camera,
            final(self).editor_context == old(self).editor_context,
            final(self).scene_context == old(self).scene_context,
    {
        self.input.on_mouse_button(button, false);
    }

    pub fn on_mouse_button_down(&mut self, button: MouseButton)
        requires
            old(self).wf(),
        ensures
            final(self).wf(),
            final(self).input == old(self).input.after_button(button, true),
            final(self).pivot == old(self).pivot && final(self).camera == old(self).camera,
            final(self).editor_context == old(self).editor_context,
            final(self).scene_context == old(self).scene_context,
    {
        self.input.on_mouse_button(button, true);
    }

    pub fn on_key_up(&mut self, key: Key)
        requires
            old(self).wf(),
        ensures
            final(self).wf(),
            final(self).input == old(self).input.released(key),
            final(self).pivot == old(self).pivot && final(self).camera == old(self).camera,
            final(self).editor_context == old(self).editor_context,
            final(self).scene_context == old(self).scene_context,
    {
        self.input.on_key_up(key);
    }

    pub fn on_key_down(&mut self, key: Key)
        requires
            old(self).wf(),
        ensures
            final(self).wf(),
            final(self).input == old(self).input.pressed(key),
            final(self).pivot == old(self).pivot && final(self).camera == old(self).camera,
            final(self).editor_context == old(self).editor_context,
            final(self).scene_context == old(self).scene_context,
    {
        self.input.on_key_down(key);
    }

    /// This frame's motion; the pending drag is consumed.
    pub fn update(&mut self) -> (m: CameraMotion)
        requires
            old(self).wf(),
        ensures
            final(self).wf(),
            m == old(self).input.motion(),
            final(self).input == old(self).input.after_update(),
            final(self).pivot == old(self).pivot && final(self).camera == old(self).camera,
            final(self).editor_context == old(self).editor_context,
            final(self).scene_context == old(self).scene_context,
    {
        self.input.update()
    }

    /// Picks the node under the cursor. `probes` holds, slot by slot, what
    /// the caller's filter says of each node of `graph` and where the camera
    /// ray meets it. An editor-only pick starts at `root`; a full-scene pick
    /// starts at the graph root and leaves `root` and its subtree out. The
    /// nearest result comes first; picking again at the same cursor over the
    /// same results returns the next one, and wraps.
    pub fn pick(
        &mut self,
        cursor_pos: CursorPos,
        graph: &SceneGraph,
        root: NodeHandle,
        editor_only: bool,
        probes: &Vec<Probe>,
    ) -> (r: Option<CameraPickResult>)
        requires
            old(self).wf(),
            graph.wf(),
            probes@.len() == graph.len(),
        ensures
            final(self).wf(),
            old(self).pick_step(*final(self), cursor_pos, graph, root, editor_only, probes@, r),
    {
        match graph.find(self.camera) {
            Some(c) => {
                if graph.nodes[c].kind != NodeKind::Camera {
                    return None;
                }
            },
            None => {
                return None;
            },
        }
        let start = if editor_only {
            graph.find(root)
        } else {
            Some(0)
        };
        let list = match start {
            Some(s) => collect_hits(graph, probes, s, editor_only, root),
            None => Vec::new(),
        };
        proof {
            if start is None {
                assert(pick_order(graph, editor_only, root) == Seq::<usize>::empty());
                assert(list@ =~= Self::ranked(graph, probes@, editor_only, root));
            }
        }
        if editor_only {
            self.editor_context.select(list, cursor_pos)
        } else {
            self.scene_context.select(list, cursor_pos)
        }
    }
}

/// A pick that does not continue a cycle (no earlier pick of its kind, or
/// one with another cursor or other results) lists every result nearest
/// first and returns the nearest.
pub proof fn lemma_fresh_pick_returns_nearest(
    c: CameraController,
    next: CameraController,
    cursor: CursorPos,
    graph: &SceneGraph,
    root: NodeHandle,
    editor_only: bool,
    probes: Seq<Probe>,
    r: Option<CameraPickResult>,
)
    requires
        is_camera(graph, c.camera),
        c.pick_step(next, cursor, graph, root, editor_only, probes, r),
        c.context(editor_only).previous != Some(
            (selection_hash(CameraController::ranked(graph, probes, editor_only, root)), cursor),
        ),
        pick_hits(graph, probes, editor_only, root).len() > 0,
    ensures
        ({
            let found = pick_hits(graph, probes, editor_only, root);
            let list = next.context(editor_only).pick_list@;
            &&& sorted_by_toi(list)
            &&& list.len() == found.len()
            &&& list.to_multiset() == found.to_multiset()
            &&& next.context(editor_only).pick_index == 0
            &&& r == Some(list[0])
            &&& forall|y: CameraPickResult| found.contains(y) ==> list[0].toi <= y.toi
        }),
{
    let found = pick_hits(graph, probes, editor_only, root);
    let list = next.context(editor_only).pick_list@;
    lemma_sort_by_toi(found);
    list.to_multiset_ensures();
    found.to_multiset_ensures();
    assert forall|y: CameraPickResult| found.contains(y) implies list[0].toi <= y.toi by {
        assert(list.to_multiset().count(y) > 0);
        let k = choose|k: int| 0 <= k < list.len() && list[k] == y;
        if k > 0 {
            assert(list[0].toi <= list[k].toi);
        }
    }
}

/// Picking again and again with the same cursor, graph and probes steps
/// through all N results: after a pick that starts a cycle, the k-th pick
/// lists the same ranked results and returns the one at index (k - 1) mod N,
/// so the (N + 1)-th is back at the nearest.
pub proof fn lemma_repeated_picks_cycle(
    cs: Seq<CameraController>,
    rs: Seq<Option<CameraPickResult>>,
    cursor: CursorPos,
    graph: &SceneGraph,
    root: NodeHandle,
    editor_only: bool,
    probes: Seq<Probe>,
)
    requires
        cs.len() >= 2,
        rs.len() == cs.len() - 1,
        is_camera(graph, cs[0].camera),
        cs[0].context(editor_only).previous != Some(
            (selection_hash(CameraController::ranked(graph, probes, editor_only, root)), cursor),
        ),
        forall|k: int| #![trigger cs[k]]
            0 <= k < cs.len() - 1 ==> cs[k].pick_step(cs[k + 1], cursor, graph, root, editor_only, probes, rs[k]),
        pick_hits(graph, probes, editor_only, root).len() > 0,
    ensures
        forall|k: int| #![trigger cs[k]]
            1 <= k < cs.len() ==> {
                let list = CameraController::ranked(graph, probes, editor_only, root);
                &&& cs[k].camera == cs[0].camera
                &&& cs[k].context(editor_only).pick_list@ == list
                &&& cs[k].context(editor_only).pick_index == (k - 1) % (list.len() as int)
                &&& rs[k - 1] == Some(list[(k - 1) % (list.len() as int)])
            },
    decreases cs.len(),
{
    let list = CameraController::ranked(graph, probes, editor_only, root);
    lemma_sort_by_toi(pick_hits(graph, probes, editor_only, root));
    let n = list.len() as int;
    let last = cs.len() - 1;
    assert(cs[0].pick_step(cs[1], cursor, graph, root, editor_only, probes, rs[0]));
    if cs.len() == 2 {
        assert(0int % n == 0) by {
            lemma_fundamental_div_mod_converse(0, n, 0, 0);
        }
    } else {
        let init = cs.drop_last();
        let rinit = rs.drop_last();
        assert forall|k: int| #![trigger init[k]]
            0 <= k < init.len() - 1 implies init[k].pick_step(init[k + 1], cursor, graph, root, editor_only, probes, rinit[k]) by {
            assert(cs[k].pick_step(cs[k + 1], cursor, graph, root, editor_only, probes, rs[k]));
        }
        lemma_repeated_picks_cycle(init, rinit, cursor, graph, root, editor_only, probes);
        assert(cs[last - 1] == init[last - 1]);
        let prev = cs[last - 1];
        assert(prev.pick_step(cs[last], cursor, graph, root, editor_only, probes, rs[last - 1]));
        assert(cs[last - 2].pick_step(prev, cursor, graph, root, editor_only, probes, rs[last - 2]));
        let i = prev.context(editor_only).pick_index as int;
        assert(i == (last - 2) % n);
        lemma_fundamental_div_mod(last - 2, n);
        let q = (last - 2) / n;
        assert(0 <= i < n);
        if i + 1 < n {
            assert((last - 2) + 1 == q * n + (i + 1)) by (nonlinear_arith)
                requires last - 2 == n * q + i;
            lemma_fundamental_div_mod_converse(last - 1, n, q, i + 1);
        } else {
            assert((last - 2) + 1 == (q + 1) * n + 0) by (nonlinear_arith)
                requires last - 2 == n * q + i, i + 1 == n;
            lemma_fundamental_div_mod_converse(last - 1, n, q + 1, 0);
        }
        assert forall|k: int| #![trigger cs[k]] 1 <= k < cs.len() implies {
            &&& cs[k].camera == cs[0].camera
            &&& cs[k].context(editor_only).pick_list@ == list
            &&& cs[k].context(editor_only).pick_index == (k - 1) % n
            &&& rs[k - 1] == Some(list[(k - 1) % n])
        } by {
            if k < last {
                assert(cs[k] == init[k]);
                assert(rs[k - 1] == rinit[k - 1]);
            }
        }
    }
}

/// Moving the cursor by any amount between two picks restarts the cycle at
/// the nearest result, even over the same results.
pub proof fn lemma_moved_cursor_restarts(
    c: CameraController,
    next: CameraController,
    cursor: CursorPos,
    graph: &SceneGraph,
    root: NodeHandle,
    editor_only: bool,
    probes: Seq<Probe>,
    r: Option<CameraPickResult>,
)
    requires
        is_camera(graph, c.camera),
        c.context(editor_only).previous matches Some((_, q)) && q != cursor,
        c.pick_step(next, cursor, graph, root, editor_only, probes, r),
    ensures
        ({
            let list = next.context(editor_only).pick_list@;
            &&& next.context(editor_only).pick_index == 0
            &&& r == if list.len() == 0 {
                None
            } else {
                Some(list[0])
            }
            &&& next.context(editor_only).previous == Some((selection_hash(list), cursor))
        }),
{
}

/// A pick that finds nothing returns no hit, whether or not the camera node
/// is a camera.
pub proof fn lemma_empty_pick_returns_none(
    c: CameraController,
    next: CameraController,
    cursor: CursorPos,
    graph: &SceneGraph,
    root: NodeHandle,
    editor_only: bool,
    probes: Seq<Probe>,
    r: Option<CameraPickResult>,
)
    requires
        c.pick_step(next, cursor, graph, root, editor_only, probes, r),
        pick_hits(graph, probes, editor_only, root).len() == 0,
    ensures
        r is None,
{
    lemma_sort_by_toi(pick_hits(graph, probes, editor_only, root));
}

proof fn lemma_hits_in_sources(g: &SceneGraph, probes: Seq<Probe>, root: NodeHandle, order: Seq<usize>, x: CameraPickResult)
    requires
        hits_in(g, probes, root, order).contains(x),
    ensures
        exists|i: int| 0 <= i < order.len() && hit_result(g, probes, root, #[trigger] order[i] as int) == Some(x),
    decreases order.len(),
{
    let init = order.drop_last();
    let h = hits_in(g, probes, root, init);
    if h.contains(x) {
        lemma_hits_in_sources(g, probes, root, init, x);
        let i = choose|i: int| 0 <= i < init.len() && hit_result(g, probes, root, #[trigger] init[i] as int) == Some(x);
        assert(order[i] == init[i]);
    } else {
        assert(hit_result(g, probes, root, order[order.len() - 1] as int) == Some(x));
    }
}

/// Every result a pick finds is a visible node of the traversal that the
/// caller's filter accepts.
pub proof fn lemma_found_nodes_pass(
    g: &SceneGraph,
    probes: Seq<Probe>,
    editor_only: bool,
    root: NodeHandle,
    x: CameraPickResult,
)
    requires
        pick_hits(g, probes, editor_only, root).contains(x),
    ensures
        exists|j: int|
            0 < j < g.len() && #[trigger] g.handle_of(j) == x.node && g.nodes@[j].visible && probes[j].accepted
                && pick_order(g, editor_only, root).contains(j as usize),
{
    let order = pick_order(g, editor_only, root);
    lemma_hits_in_sources(g, probes, root, order, x);
    let i = choose|i: int| 0 <= i < order.len() && hit_result(g, probes, root, #[trigger] order[i] as int) == Some(x);
    let j = order[i] as int;
    assert(g.handle_of(j) == x.node);
    assert(order.contains(j as usize));
}

/// A node that the filter rejects, or that is invisible, is never listed by
/// a pick and never returned, whatever the ray meets.
pub proof fn lemma_rejected_or_hidden_never_picked(
    c: CameraController,
    next: CameraController,
    cursor: CursorPos,
    graph: &SceneGraph,
    root: NodeHandle,
    editor_only: bool,
    probes: Seq<Probe>,
    r: Option<CameraPickResult>,
    j: int,
)
    requires
        graph.wf(),
        probes.len() == graph.len(),
        is_camera(graph, c.camera),
        c.pick_step(next, cursor, graph, root, editor_only, probes, r),
        0 <= j < graph.len(),
        !probes[j].accepted || !graph.nodes@[j].visible,
    ensures
        forall|k: int| 0 <= k < next.context(editor_only).pick_list@.len()
            ==> #[trigger] next.context(editor_only).pick_list@[k].node != graph.handle_of(j),
        r is None || r->0.node != graph.handle_of(j),
{
    let found = pick_hits(graph, probes, editor_only, root);
    let list = next.context(editor_only).pick_list@;
    lemma_sort_by_toi(found);
    list.to_multiset_ensures();
    found.to_multiset_ensures();
    assert forall|k: int| 0 <= k < list.len() implies #[trigger] list[k].node != graph.handle_of(j) by {
        let x = list[k];
        assert(list.to_multiset().count(x) > 0);
        assert(found.contains(x));
        lemma_found_nodes_pass(graph, probes, editor_only, root, x);
        let i = choose|i: int|
            0 < i < graph.len() && #[trigger] graph.handle_of(i) == x.node && graph.nodes@[i].visible
                && probes[i].accepted && pick_order(graph, editor_only, root).contains(i as usize);
        if i < j {
            assert(graph.handle_of(i) != graph.handle_of(j));
        } else if j < i {
            assert(graph.handle_of(j) != graph.handle_of(i));
        }
    }
}

/// A graph that holds nothing but its root gives no hit.
pub proof fn lemma_root_only_graph_has_no_hits(
    g: &SceneGraph,
    probes: Seq<Probe>,
    editor_only: bool,
    root: NodeHandle,
)
    requires
        g.wf(),
        g.len() == 1,
    ensures
        pick_hits(g, probes, editor_only, root).len() == 0,
{
    let found = pick_hits(g, probes, editor_only, root);
    if found.len() > 0 {
        assert(found.contains(found[0]));
        lemma_found_nodes_pass(g, probes, editor_only, root, found[0]);
    }
}

} // verus!
