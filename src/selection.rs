use vstd::prelude::*;

verus! {

broadcast use vstd::seq_lib::group_to_multiset_ensures;

/// Identity of a physics entity in its pool: slot index and generation.
#[derive(Clone, Copy, Debug, PartialEq, Eq, Structural, Hash)]
pub struct PoolHandle {
    pub index: u32,
    pub generation: u32,
}

pub type BodyHandle = PoolHandle;

pub type JointHandle = PoolHandle;

fn count_of(v: &Vec<PoolHandle>, x: PoolHandle) -> (c: usize)
    ensures
        c == v@.to_multiset().count(x),
{
    let mut c: usize = 0;
    let mut i: usize = 0;
    while i < v.len()
        invariant
            i <= v@.len(),
            c == v@.take(i as int).to_multiset().count(x),
            c <= i,
        decreases v@.len() - i,
    {
        proof {
            assert(v@.take(i + 1) == v@.take(i as int).push(v@[i as int]));
            vstd::seq_lib::to_multiset_build(v@.take(i as int), v@[i as int]);
        }
        if v[i] == x {
            c = c + 1;
        }
        i = i + 1;
    }
    assert(v@.take(v@.len() as int) == v@);
    c
}

/// Whether `a` and `b` hold the same handles, each as often, in any order.
pub fn same_members(a: &Vec<PoolHandle>, b: &Vec<PoolHandle>) -> (r: bool)
    ensures
        r == (a@.to_multiset() == b@.to_multiset()),
{
    let mut i: usize = 0;
    while i < a.len()
        invariant
            i <= a@.len(),
            forall|k: int| 0 <= k < i ==> a@.to_multiset().count(#[trigger] a@[k]) == b@.to_multiset().count(a@[k]),
        decreases a@.len() - i,
    {
        if count_of(a, a[i]) != count_of(b, a[i]) {
            return false;
        }
        i = i + 1;
    }
    let mut j: usize = 0;
    while j < b.len()
        invariant
            j <= b@.len(),
            forall|k: int| 0 <= k < a@.len() ==> a@.to_multiset().count(#[trigger] a@[k]) == b@.to_multiset().count(a@[k]),
            forall|k: int| 0 <= k < j ==> a@.to_multiset().count(#[trigger] b@[k]) == b@.to_multiset().count(b@[k]),
        decreases b@.len() - j,
    {
        if count_of(a, b[j]) != count_of(b, b[j]) {
            return false;
        }
        j = j + 1;
    }
    proof {
        assert forall|x: PoolHandle| a@.to_multiset().count(x) == b@.to_multiset().count(x) by {
            if a@.contains(x) {
                let k = choose|k: int| 0 <= k < a@.len() && a@[k] == x;
                assert(a@.to_multiset().count(a@[k]) == b@.to_multiset().count(a@[k]));
            } else if b@.contains(x) {
                let k = choose|k: int| 0 <= k < b@.len() && b@[k] == x;
                assert(a@.to_multiset().count(b@[k]) == b@.to_multiset().count(b@[k]));
            }
        }
        assert(a@.to_multiset() =~= b@.to_multiset());
    }
    true
}

/// The rigid bodies selected in the editor. Two selections are equal when
/// they hold the same bodies in any order.
#[derive(Debug)]
pub struct RigidBodySelection {
    pub bodies: Vec<BodyHandle>,
}

impl RigidBodySelection {
    pub fn bodies(&self) -> (r: &[BodyHandle])
        ensures
            r@ == self.bodies@,
    {
        self.bodies.as_slice()
    }

    pub fn is_single_selection(&self) -> (r: bool)
        ensures
            r == (self.bodies@.len() == 1),
    {
        self.bodies.len() == 1
    }

    pub fn first(&self) -> (r: Option<BodyHandle>)
        ensures
            r == if self.bodies@.len() == 0 {
                None
            } else {
                Some(self.bodies@[0])
            },
    {
        if self.bodies.len() == 0 {
            None
        } else {
            Some(self.bodies[0])
        }
    }
}

impl PartialEq for RigidBodySelection {
    fn eq(&self, other: &RigidBodySelection) -> (r: bool) {
        same_members(&self.bodies, &other.bodies)
    }
}

impl vstd::std_specs::cmp::PartialEqSpecImpl for RigidBodySelection {
    open spec fn obeys_eq_spec() -> bool {
        true
    }

    open spec fn eq_spec(&self, other: &RigidBodySelection) -> bool {
        self.bodies@.to_multiset() == other.bodies@.to_multiset()
    }
}

impl Eq for RigidBodySelection {
}

/// The joints selected in the editor. Two selections are equal when they
/// hold the same joints in any order.
#[derive(Debug)]
pub struct JointSelection {
    pub joints: Vec<JointHandle>,
}

impl JointSelection {
    pub fn joints(&self) -> (r: &[JointHandle])
        ensures
            r@ == self.joints@,
    {
        self.joints.as_slice()
    }

    pub fn is_single_selection(&self) -> (r: bool)
        ensures
            r == (self.joints@.len() == 1),
    {
        self.joints.len() == 1
    }

    pub fn first(&self) -> (r: Option<JointHandle>)
        ensures
            r == if self.joints@.len() == 0 {
                None
            } else {
                Some(self.joints@[0])
            },
    {
        if self.joints.len() == 0 {
            None
        } else {
            Some(self.joints[0])
        }
    }
}

impl PartialEq for JointSelection {
    fn eq(&self, other: &JointSelection) -> (r: bool) {
        same_members(&self.joints, &other.joints)
    }
}

impl vstd::std_specs::cmp::PartialEqSpecImpl for JointSelection {
    open spec fn obeys_eq_spec() -> bool {
        true
    }

    open spec fn eq_spec(&self, other: &JointSelection) -> bool {
        self.joints@.to_multiset() == other.joints@.to_multiset()
    }
}

impl Eq for JointSelection {
}

} // verus!
