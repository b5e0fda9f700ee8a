use scene_pick::scene::{NodeHandle, NodeKind, SceneGraph};

fn h(index: u32) -> NodeHandle {
    NodeHandle { index, generation: 3 }
}

#[test]
fn builder_links_children_after_parents() {
    let mut g = SceneGraph::new(h(0), NodeKind::Base, true);
    let a = g.add_node(0, h(5), NodeKind::Mesh, false);
    let b = g.add_node(a, h(6), NodeKind::Camera, true);
    let c = g.add_node(0, h(7), NodeKind::Other, true);
    assert_eq!((a, b, c), (1, 2, 3));
    assert_eq!(g.nodes[0].children, vec![1, 3]);
    assert_eq!(g.nodes[a].children, vec![2]);
    assert_eq!(g.nodes[b].parent, Some(1));
    assert_eq!(g.nodes[0].parent, None);
    assert!(!g.nodes[a].visible);
    assert_eq!(g.nodes[b].kind, NodeKind::Camera);
}

#[test]
fn find_locates_handles() {
    let mut g = SceneGraph::new(h(0), NodeKind::Base, true);
    g.add_node(0, h(5), NodeKind::Mesh, true);
    g.add_node(1, h(6), NodeKind::Mesh, true);
    assert_eq!(g.find(h(6)), Some(2));
    assert_eq!(g.find(h(0)), Some(0));
    assert_eq!(g.find(h(9)), None);
    assert_eq!(g.find(NodeHandle { index: 5, generation: 4 }), None);
}
