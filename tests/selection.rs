use scene_pick::selection::{same_members, JointSelection, PoolHandle, RigidBodySelection};

fn p(index: u32) -> PoolHandle {
    PoolHandle { index, generation: 0 }
}

#[test]
fn body_selection_equality_ignores_order() {
    let a = RigidBodySelection { bodies: vec![p(1), p(2), p(3)] };
    let b = RigidBodySelection { bodies: vec![p(3), p(1), p(2)] };
    let c = RigidBodySelection { bodies: vec![p(3), p(1), p(1)] };
    let d = RigidBodySelection { bodies: vec![p(3), p(1)] };
    assert!(a == b);
    assert!(a != c);
    assert!(a != d);
    assert!(d != a);
}

#[test]
fn body_selection_queries() {
    let empty = RigidBodySelection { bodies: vec![] };
    assert!(!empty.is_single_selection());
    assert_eq!(empty.first(), None);
    assert!(empty.bodies().is_empty());
    let one = RigidBodySelection { bodies: vec![p(7)] };
    assert!(one.is_single_selection());
    assert_eq!(one.first(), Some(p(7)));
    let two = RigidBodySelection { bodies: vec![p(8), p(7)] };
    assert!(!two.is_single_selection());
    assert_eq!(two.first(), Some(p(8)));
    assert_eq!(two.bodies(), &[p(8), p(7)]);
}

#[test]
fn joint_selection_queries_and_equality() {
    let a = JointSelection { joints: vec![p(4), p(5)] };
    let b = JointSelection { joints: vec![p(5), p(4)] };
    assert!(a == b);
    assert_eq!(a.first(), Some(p(4)));
    assert!(!a.is_single_selection());
    assert_eq!(a.joints(), &[p(4), p(5)]);
    let single = JointSelection { joints: vec![p(9)] };
    assert!(single.is_single_selection());
    assert!(single != a);
    let empty = JointSelection { joints: vec![] };
    assert_eq!(empty.first(), None);
    assert!(empty == JointSelection { joints: vec![] });
}

#[test]
fn same_members_counts_repeats() {
    assert!(same_members(&vec![p(1), p(1), p(2)], &vec![p(1), p(2), p(1)]));
    assert!(!same_members(&vec![p(1), p(1), p(2)], &vec![p(1), p(2), p(2)]));
    assert!(same_members(&vec![], &vec![]));
    assert!(!same_members(&vec![p(1)], &vec![]));
    assert!(!same_members(&vec![p(1)], &vec![PoolHandle { index: 1, generation: 1 }]));
}
