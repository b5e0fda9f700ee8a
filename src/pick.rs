use vstd::prelude::*;
use vstd::multiset::Multiset;
use vstd::arithmetic::div_mod::lemma_add_mod_noop;
use crate::scene::{NodeHandle, NodeKind, SceneGraph};

verus! {

broadcast use vstd::seq_lib::group_to_multiset_ensures;

/// A screen position; each coordinate is the IEEE-754 bit pattern of an
/// `f32`, so two positions are equal only when they are bit-exact.
#[derive(Clone, Copy, Debug, PartialEq, Eq, Structural)]
pub struct CursorPos {
    pub x_bits: u32,
    pub y_bits: u32,
}

/// A world-space point carried through picking, as `f32` bit patterns.
#[derive(Clone, Copy, Debug, PartialEq, Eq, Structural)]
pub struct PointBits {
    pub x: u32,
    pub y: u32,
    pub z: u32,
}

/// Outcome of the ray test of one node against its bounding volume.
#[derive(Clone, Copy, Debug, PartialEq, Eq, Structural)]
pub struct Hit {
    /// Rank key of the object-space distance to the nearer intersection
    /// point: the bit pattern of a non-negative `f32`, whose unsigned order
    /// is the order of the distances.
    pub toi: u32,
    /// The nearer intersection point in world space.
    pub position: PointBits,
}

/// What one pick knows of the node in the same slot of the graph: whether the
/// caller's filter accepts it, and where the camera ray meets its bounding
/// volume (the volume that `bounding_volume` names for it).
#[derive(Clone, Copy, Debug, PartialEq, Eq, Structural)]
pub struct Probe {
    pub accepted: bool,
    pub hit: Option<Hit>,
}

#[derive(Clone, Copy, Debug, PartialEq, Eq, Structural)]
pub struct CameraPickResult {
    pub position: PointBits,
    pub node: NodeHandle,
    pub toi: u32,
}

/// The coarse volume a node is tested against.
#[derive(Clone, Copy, Debug, PartialEq, Eq, Structural)]
pub enum BoundingVolume {
    /// Never hit.
    Empty,
    /// A unit box centred at the node's origin.
    Unit,
    /// The mesh's own bounding box.
    MeshBounds,
}

pub open spec fn volume_of(kind: NodeKind, is_graph_root: bool, is_traversal_root: bool) -> BoundingVolume {
    match kind {
        NodeKind::Mesh => BoundingVolume::MeshBounds,
        NodeKind::Base => if is_graph_root || is_traversal_root {
            BoundingVolume::Empty
        } else {
            BoundingVolume::Unit
        },
        _ => BoundingVolume::Unit,
    }
}

/// A mesh is tested against its bounding box; a pivot that is the graph root
/// or the traversal root is never hit; any other node stands as a unit box.
pub fn bounding_volume(kind: NodeKind, is_graph_root: bool, is_traversal_root: bool) -> (v: BoundingVolume)
    ensures
        v == volume_of(kind, is_graph_root, is_traversal_root),
{
    match kind {
        NodeKind::Mesh => BoundingVolume::MeshBounds,
        NodeKind::Base => if is_graph_root || is_traversal_root {
            BoundingVolume::Empty
        } else {
            BoundingVolume::Unit
        },
        _ => BoundingVolume::Unit,
    }
}

/// In a full-scene pick the editor root and everything under it is left out.
pub open spec fn skipped(g: &SceneGraph, editor_only: bool, root: NodeHandle, j: int) -> bool {
    !editor_only && g.handle_of(j) == root
}

/// The slots a traversal from `j` evaluates, in the order it evaluates them:
/// `j` itself, then the subtrees of its children from the last child to the
/// first (the explicit stack pops the child pushed last). A skipped node
/// contributes nothing, its subtree included.
pub open spec fn subtree_order(g: &SceneGraph, editor_only: bool, root: NodeHandle, j: int) -> Seq<usize>
    decreases g.len() - j, g.children_of(j).len() + 1,
{
    if j < 0 || j >= g.len() || skipped(g, editor_only, root, j) {
        Seq::empty()
    } else {
        seq![j as usize] + children_order(g, editor_only, root, j, g.children_of(j).len() as int)
    }
}

/// The subtrees of the first `k` children of `j`, the `k`-th child's first.
pub open spec fn children_order(g: &SceneGraph, editor_only: bool, root: NodeHandle, j: int, k: int) -> Seq<usize>
    decreases g.len() - j, k,
{
    if k <= 0 || k > g.children_of(j).len() || j < 0 || j >= g.len() {
        Seq::empty()
    } else {
        let c = g.children_of(j)[k - 1] as int;
        let rest = children_order(g, editor_only, root, j, k - 1);
        if j < c && c < g.len() {
            subtree_order(g, editor_only, root, c) + rest
        } else {
            rest
        }
    }
}

/// What a stack of pending slots still has to evaluate, top first.
pub open spec fn pending(g: &SceneGraph, editor_only: bool, root: NodeHandle, stack: Seq<usize>) -> Seq<usize>
    decreases stack.len(),
{
    if stack.len() == 0 {
        Seq::empty()
    } else {
        subtree_order(g, editor_only, root, stack.last() as int) + pending(g, editor_only, root, stack.drop_last())
    }
}

/// What evaluating slot `j` contributes: a result when the node is visible,
/// accepted, not the graph root, and its volume is hit.
pub open spec fn hit_result(g: &SceneGraph, probes: Seq<Probe>, root: NodeHandle, j: int) -> Option<CameraPickResult> {
    let n = g.nodes@[j];
    let p = probes[j];
    if 0 < j < g.len() && n.visible && p.accepted
        && volume_of(n.kind, j == 0, n.handle == root) != BoundingVolume::Empty && p.hit is Some {
        Some(CameraPickResult { position: p.hit->0.position, node: n.handle, toi: p.hit->0.toi })
    } else {
        None
    }
}

/// The results of evaluating `order`, in that order.
pub open spec fn hits_in(g: &SceneGraph, probes: Seq<Probe>, root: NodeHandle, order: Seq<usize>) -> Seq<CameraPickResult>
    decreases order.len(),
{
    if order.len() == 0 {
        Seq::empty()
    } else {
        let h = hits_in(g, probes, root, order.drop_last());
        match hit_result(g, probes, root, order.last() as int) {
            Some(r) => h.push(r),
            None => h,
        }
    }
}

/// Where `x` goes in `s`: before the first result that ranks after it.
pub open spec fn insert_pos(s: Seq<CameraPickResult>, x: CameraPickResult) -> int
    decreases s.len(),
{
    if s.len() == 0 {
        0
    } else if s[0].toi > x.toi {
        0
    } else {
        1 + insert_pos(s.drop_first(), x)
    }
}

pub open spec fn insert_by_toi(s: Seq<CameraPickResult>, x: CameraPickResult) -> Seq<CameraPickResult> {
    s.insert(insert_pos(s, x), x)
}

/// `s` stably sorted by `toi`: results of equal rank keep their order in `s`.
pub open spec fn sort_by_toi(s: Seq<CameraPickResult>) -> Seq<CameraPickResult>
    decreases s.len(),
{
    if s.len() == 0 {
        Seq::empty()
    } else {
        insert_by_toi(sort_by_toi(s.drop_last()), s.last())
    }
}

/// Everything a traversal from `start` finds, in traversal order.
pub open spec fn region_hits(g: &SceneGraph, probes: Seq<Probe>, start: int, editor_only: bool, root: NodeHandle) -> Seq<CameraPickResult> {
    hits_in(g, probes, root, subtree_order(g, editor_only, root, start))
}

/// Where a pick starts: the editor root for an editor-only pick (-1 when
/// the graph does not hold it), else the graph root.
pub open spec fn start_slot(g: &SceneGraph, editor_only: bool, root: NodeHandle) -> int {
    if editor_only {
        g.slot_of(root)
    } else {
        0
    }
}

/// The slots a pick evaluates, in order.
pub open spec fn pick_order(g: &SceneGraph, editor_only: bool, root: NodeHandle) -> Seq<usize> {
    let s = start_slot(g, editor_only, root);
    if s < 0 {
        Seq::empty()
    } else {
        subtree_order(g, editor_only, root, s)
    }
}

/// Everything a pick finds, in traversal order.
pub open spec fn pick_hits(g: &SceneGraph, probes: Seq<Probe>, editor_only: bool, root: NodeHandle) -> Seq<CameraPickResult> {
    hits_in(g, probes, root, pick_order(g, editor_only, root))
}

pub open spec fn sorted_by_toi(s: Seq<CameraPickResult>) -> bool {
    forall|a: int, b: int| 0 <= a < b < s.len() ==> s[a].toi <= s[b].toi
}

proof fn lemma_pending_children(
    g: &SceneGraph,
    editor_only: bool,
    root: NodeHandle,
    rest: Seq<usize>,
    e: int,
    k: int,
)
    requires
        g.wf(),
        0 <= e < g.len(),
        0 <= k <= g.children_of(e).len(),
    ensures
        pending(g, editor_only, root, rest + g.children_of(e).take(k))
            == children_order(g, editor_only, root, e, k) + pending(g, editor_only, root, rest),
    decreases k,
{
    let kids = g.children_of(e);
    if k == 0 {
        assert(rest + kids.take(0) == rest);
        assert(children_order(g, editor_only, root, e, 0) + pending(g, editor_only, root, rest)
            == pending(g, editor_only, root, rest));
    } else {
        lemma_pending_children(g, editor_only, root, rest, e, k - 1);
        let s = rest + kids.take(k);
        assert(s.drop_last() == rest + kids.take(k - 1));
        assert(s.last() == kids[k - 1]);
        assert(e < kids[k - 1] < g.len());
        assert(pending(g, editor_only, root, s) == subtree_order(g, editor_only, root, kids[k - 1] as int)
            + (children_order(g, editor_only, root, e, k - 1) + pending(g, editor_only, root, rest)));
    }
}

/// The slots the traversal from `start` evaluates, in order: it pops a slot,
/// skips it (with its subtree) if it is the editor root during a full-scene
/// pick, and otherwise evaluates it and pushes its children.
pub fn traversal(g: &SceneGraph, start: usize, editor_only: bool, root: NodeHandle) -> (order: Vec<usize>)
    requires
        g.wf(),
        start < g.len(),
    ensures
        order@ == subtree_order(g, editor_only, root, start as int),
        forall|k: int| 0 <= k < order@.len() ==> #[trigger] order@[k] < g.len(),
{
    let mut order: Vec<usize> = Vec::new();
    let mut stack: Vec<usize> = Vec::new();
    stack.push(start);
    proof {
        assert(stack@.drop_last() == Seq::<usize>::empty());
        assert(stack@.last() == start);
        assert(pending(g, editor_only, root, Seq::<usize>::empty()) == Seq::<usize>::empty());
        assert(order@ + pending(g, editor_only, root, stack@) =~= subtree_order(g, editor_only, root, start as int));
    }
    while stack.len() > 0
        invariant
            g.wf(),
            start < g.len(),
            forall|k: int| 0 <= k < stack@.len() ==> #[trigger] stack@[k] < g.len(),
            forall|k: int| 0 <= k < order@.len() ==> #[trigger] order@[k] < g.len(),
            order@ + pending(g, editor_only, root, stack@) == subtree_order(g, editor_only, root, start as int),
        decreases pending(g, editor_only, root, stack@).len(), stack@.len(),
    {
        let ghost before = stack@;
        let ghost before_order = order@;
        let e = stack.pop().unwrap();
        let ghost rest = stack@;
        proof {
            assert(before.drop_last() == rest);
            assert(before.last() == e);
            assert(before[before.len() - 1] < g.len());
        }
        let skip = !editor_only && g.nodes[e].handle == root;
        if !skip {
            order.push(e);
            let kids = &g.nodes[e].children;
            let mut k: usize = 0;
            while k < kids.len()
                invariant
                    g.wf(),
                    e < g.len(),
                    kids@ == g.children_of(e as int),
                    k <= kids@.len(),
                    stack@ == rest + kids@.take(k as int),
                    forall|i: int| 0 <= i < rest.len() ==> #[trigger] rest[i] < g.len(),
                decreases kids@.len() - k,
            {
                stack.push(kids[k]);
                proof {
                    assert(kids@.take(k + 1) == kids@.take(k as int).push(kids@[k as int]));
                }
                k = k + 1;
            }
            proof {
                let n = kids@.len() as int;
                lemma_pending_children(g, editor_only, root, rest, e as int, n);
                assert(subtree_order(g, editor_only, root, e as int)
                    == seq![e] + children_order(g, editor_only, root, e as int, n));
                assert(order@ + pending(g, editor_only, root, stack@)
                    =~= before_order + pending(g, editor_only, root, before));
                assert forall|i: int| 0 <= i < stack@.len() implies #[trigger] stack@[i] < g.len() by {
                    if i >= rest.len() {
                        assert(stack@[i] == kids@[i - rest.len()]);
                    }
                }
            }
        } else {
            proof {
                assert(subtree_order(g, editor_only, root, e as int) == Seq::<usize>::empty());
                assert(pending(g, editor_only, root, before) =~= pending(g, editor_only, root, rest));
            }
        }
    }
    order
}

proof fn lemma_insert_pos(s: Seq<CameraPickResult>, x: CameraPickResult)
    ensures
        0 <= insert_pos(s, x) <= s.len(),
        forall|k: int| 0 <= k < insert_pos(s, x) ==> s[k].toi <= x.toi,
        insert_pos(s, x) < s.len() ==> s[insert_pos(s, x)].toi > x.toi,
    decreases s.len(),
{
    if s.len() > 0 && s[0].toi <= x.toi {
        lemma_insert_pos(s.drop_first(), x);
        assert forall|k: int| 0 <= k < insert_pos(s, x) implies s[k].toi <= x.toi by {
            if k > 0 {
                assert(s[k] == s.drop_first()[k - 1]);
            }
        }
    }
}

/// Inserting by rank keeps a sorted list sorted and adds exactly `x`.
proof fn lemma_insert_by_toi(s: Seq<CameraPickResult>, x: CameraPickResult)
    requires
        sorted_by_toi(s),
    ensures
        sorted_by_toi(insert_by_toi(s, x)),
        insert_by_toi(s, x).to_multiset() == s.to_multiset().insert(x),
{
    let pos = insert_pos(s, x);
    lemma_insert_pos(s, x);
    let t = insert_by_toi(s, x);
    vstd::seq_lib::to_multiset_insert(s, pos, x);
    assert forall|a: int, b: int| 0 <= a < b < t.len() implies t[a].toi <= t[b].toi by {
        if b == pos {
            assert(t[a] == s[a]);
        } else if a == pos {
            assert(t[b] == s[b - 1]);
            assert(s[pos].toi <= s[b - 1].toi || b - 1 == pos);
        } else if a < pos && b > pos {
            assert(t[b] == s[b - 1]);
            assert(t[a] == s[a]);
        } else if a < pos {
            assert(t[a] == s[a] && t[b] == s[b]);
        } else {
            assert(t[a] == s[a - 1] && t[b] == s[b - 1]);
        }
    }
}

/// The stable sort by rank is sorted and holds exactly the results of `s`.
pub proof fn lemma_sort_by_toi(s: Seq<CameraPickResult>)
    ensures
        sorted_by_toi(sort_by_toi(s)),
        sort_by_toi(s).to_multiset() == s.to_multiset(),
        sort_by_toi(s).len() == s.len(),
    decreases s.len(),
{
    s.to_multiset_ensures();
    sort_by_toi(s).to_multiset_ensures();
    if s.len() > 0 {
        lemma_sort_by_toi(s.drop_last());
        lemma_insert_by_toi(sort_by_toi(s.drop_last()), s.last());
        assert(s.drop_last().push(s.last()) == s);
        vstd::seq_lib::to_multiset_build(s.drop_last(), s.last());
    } else {
        assert(s.to_multiset() =~= Multiset::empty());
        assert(sort_by_toi(s).to_multiset() =~= Multiset::empty());
    }
}

/// Inserts `r` after every result that ranks at or before it.
fn insert_sorted(list: &mut Vec<CameraPickResult>, r: CameraPickResult)
    ensures
        final(list)@ == insert_by_toi(old(list)@, r),
{
    let mut pos: usize = 0;
    while pos < list.len() && list[pos].toi <= r.toi
        invariant
            pos <= list@.len(),
            forall|k: int| 0 <= k < pos ==> list@[k].toi <= r.toi,
        decreases list@.len() - pos,
    {
        pos = pos + 1;
    }
    proof {
        let s = list@;
        lemma_insert_pos(s, r);
        let q = insert_pos(s, r);
        if q < pos {
            assert(s[q].toi <= r.toi);
        } else if pos < q {
            assert(s[pos as int].toi <= r.toi);
        }
    }
    list.insert(pos, r);
}

fn evaluate(g: &SceneGraph, probes: &Vec<Probe>, e: usize, root: NodeHandle) -> (r: Option<CameraPickResult>)
    requires
        g.wf(),
        probes@.len() == g.len(),
        e < g.len(),
    ensures
        r == hit_result(g, probes@, root, e as int),
{
    let node = &g.nodes[e];
    let probe = &probes[e];
    if !node.visible || !probe.accepted || e == 0 {
        return None;
    }
    let volume = bounding_volume(node.kind, e == 0, node.handle == root);
    if volume == BoundingVolume::Empty {
        return None;
    }
    match probe.hit {
        Some(h) => Some(CameraPickResult { position: h.position, node: node.handle, toi: h.toi }),
        None => None,
    }
}

/// Walks the graph from `start` and returns what it hits, nearest first;
/// results at equal distance keep their traversal order.
pub fn collect_hits(
    g: &SceneGraph,
    probes: &Vec<Probe>,
    start: usize,
    editor_only: bool,
    root: NodeHandle,
) -> (list: Vec<CameraPickResult>)
    requires
        g.wf(),
        probes@.len() == g.len(),
        start < g.len(),
    ensures
        list@ == sort_by_toi(region_hits(g, probes@, start as int, editor_only, root)),
{
    let order = traversal(g, start, editor_only, root);
    let ghost full = order@;
    let mut list: Vec<CameraPickResult> = Vec::new();
    let mut i: usize = 0;
    proof {
        assert(full.take(0) =~= Seq::<usize>::empty());
    }
    while i < order.len()
        invariant
            g.wf(),
            probes@.len() == g.len(),
            order@ == full,
            i <= full.len(),
            forall|k: int| 0 <= k < full.len() ==> #[trigger] full[k] < g.len(),
            list@ == sort_by_toi(hits_in(g, probes@, root, full.take(i as int))),
        decreases full.len() - i,
    {
        let e = order[i];
        proof {
            assert(full.take(i + 1).drop_last() == full.take(i as int));
            assert(full.take(i + 1).last() == e);
        }
        match evaluate(g, probes, e, root) {
            Some(r) => {
                insert_sorted(&mut list, r);
                proof {
                    let h = hits_in(g, probes@, root, full.take(i as int));
                    assert(h.push(r).drop_last() == h);
                }
            },
            None => {},
        }
        i = i + 1;
    }
    proof {
        assert(full.take(full.len() as int) == full);
    }
    list
}

/// Odd multiplier that spreads a handle over the 64-bit hash space.
pub const MIX: u64 = 0x9E37_79B9_7F4A_7C15;

pub open spec fn handle_key(h: NodeHandle) -> int {
    h.index as int * 0x1_0000_0000 + h.generation as int
}

/// The hash contribution of one node.
pub open spec fn node_mix(h: NodeHandle) -> int {
    (handle_key(h) * MIX as int) % 0x1_0000_0000_0000_0000
}

pub open spec fn mix_sum(s: Seq<CameraPickResult>) -> int
    decreases s.len(),
{
    if s.len() == 0 {
        0
    } else {
        mix_sum(s.drop_last()) + node_mix(s.last().node)
    }
}

/// Hash of the nodes of a result list: the wrapping sum of their
/// contributions, which ignores the order of the list.
pub open spec fn selection_hash(s: Seq<CameraPickResult>) -> u64 {
    (mix_sum(s) % 0x1_0000_0000_0000_0000) as u64
}

fn mix_of(h: NodeHandle) -> (r: u64)
    ensures
        r == node_mix(h),
{
    let key: u128 = h.index as u128 * 0x1_0000_0000u128 + h.generation as u128;
    assert(key * (MIX as u128) < 0x1_0000_0000_0000_0000_0000_0000_0000_0000) by (nonlinear_arith)
        requires
            key < 0x1_0000_0000_0000_0000,
    ;
    ((key * MIX as u128) % 0x1_0000_0000_0000_0000u128) as u64
}

proof fn lemma_hash_step(s: Seq<CameraPickResult>, i: int, h: u64, m: u64)
    requires
        0 <= i < s.len(),
        h == selection_hash(s.take(i)),
        m == node_mix(s[i].node),
    ensures
        (h as int + m as int) % 0x1_0000_0000_0000_0000 == selection_hash(s.take(i + 1)) as int,
{
    let t = s.take(i + 1);
    assert(t.drop_last() == s.take(i));
    assert(t.last() == s[i]);
    lemma_add_mod_noop(mix_sum(s.take(i)), m as int, 0x1_0000_0000_0000_0000);
    assert(m as int % 0x1_0000_0000_0000_0000 == m as int);
    assert((h as int) % 0x1_0000_0000_0000_0000 == h as int);
}

/// The selection hash of `list`.
pub fn hash_selection(list: &Vec<CameraPickResult>) -> (h: u64)
    ensures
        h == selection_hash(list@),
{
    let mut h: u64 = 0;
    let mut i: usize = 0;
    while i < list.len()
        invariant
            i <= list@.len(),
            h == selection_hash(list@.take(i as int)),
        decreases list@.len() - i,
    {
        let m = mix_of(list[i].node);
        proof {
            lemma_hash_step(list@, i as int, h, m);
        }
        h = ((h as u128 + m as u128) % 0x1_0000_0000_0000_0000u128) as u64;
        i = i + 1;
    }
    assert(list@.take(list@.len() as int) == list@);
    h
}

proof fn lemma_mix_sum_remove(s: Seq<CameraPickResult>, i: int)
    requires
        0 <= i < s.len(),
    ensures
        mix_sum(s) == mix_sum(s.remove(i)) + node_mix(s[i].node),
    decreases s.len(),
{
    if i < s.len() - 1 {
        let r = s.remove(i);
        assert(r.drop_last() == s.drop_last().remove(i));
        assert(r.last() == s.last());
        lemma_mix_sum_remove(s.drop_last(), i);
    } else {
        assert(s.remove(i) == s.drop_last());
    }
}

/// The sum of contributions depends only on which results the list holds.
pub proof fn lemma_mix_sum_order_free(s: Seq<CameraPickResult>, t: Seq<CameraPickResult>)
    requires
        s.to_multiset() == t.to_multiset(),
    ensures
        mix_sum(s) == mix_sum(t),
    decreases s.len(),
{
    s.to_multiset_ensures();
    t.to_multiset_ensures();
    if s.len() == 0 {
        assert(t.len() == 0);
    } else {
        let x = s.last();
        let init = s.drop_last();
        assert(init.push(x) == s);
        vstd::seq_lib::to_multiset_build(init, x);
        assert(s.to_multiset().count(x) > 0);
        assert(t.contains(x));
        let i = choose|i: int| 0 <= i < t.len() && t[i] == x;
        vstd::seq_lib::to_multiset_remove(t, i);
        assert(init.to_multiset() =~= t.remove(i).to_multiset());
        lemma_mix_sum_order_free(init, t.remove(i));
        lemma_mix_sum_remove(t, i);
    }
}

/// Two result lists holding the same results, in any order, hash alike.
pub proof fn lemma_selection_hash_order_free(s: Seq<CameraPickResult>, t: Seq<CameraPickResult>)
    requires
        s.to_multiset() == t.to_multiset(),
    ensures
        selection_hash(s) == selection_hash(t),
{
    lemma_mix_sum_order_free(s, t);
}

} // verus!
