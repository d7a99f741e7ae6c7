//! Skins: joints that reference scene nodes, and the per-frame joint
//! matrices built from the nodes' global transforms.
use vstd::prelude::*;

verus! {

/// A joint of a skin: the node that poses it and its bind matrix.
#[derive(Debug, Clone, Copy)]
pub struct Joint<M> {
    pub bind_matrix: M,
    pub node: usize,
}

/// The joints of a skeleton, in the order a skinned mesh indexes them.
#[derive(Debug)]
pub struct Skin<M> {
    pub joints: Vec<Joint<M>>,
}

impl<M: Copy> Joint<M> {
    /// A joint posed by `node` with the given bind matrix.
    pub fn new(bind_matrix: M, node: usize) -> (r: Self)
        ensures
            r.bind_matrix == bind_matrix,
            r.node == node,
    {
        Joint { bind_matrix, node }
    }
}

impl<M: Copy> Skin<M> {
    /// Pairs bind matrices with joint nodes, position by position; extra
    /// entries of the longer list are left out.
    pub fn from_parts(bind_matrices: &Vec<M>, nodes: &Vec<usize>) -> (r: Self)
        ensures
            r.joints@.len() == if bind_matrices.len() < nodes.len() {
                bind_matrices.len()
            } else {
                nodes.len()
            },
            forall|k: int|
                0 <= k < r.joints@.len() ==> (#[trigger] r.joints@[k]).bind_matrix
                    == bind_matrices@[k] && r.joints@[k].node == nodes@[k],
    {
        let mut joints: Vec<Joint<M>> = Vec::new();
        let mut k: usize = 0;
        while k < bind_matrices.len() && k < nodes.len()
            invariant
                0 <= k <= bind_matrices.len(),
                k <= nodes.len(),
                joints@.len() == k,
                forall|j: int|
                    0 <= j < k ==> (#[trigger] joints@[j]).bind_matrix == bind_matrices@[j]
                        && joints@[j].node == nodes@[j],
            decreases bind_matrices.len() - k,
        {
            joints.push(Joint::new(bind_matrices[k], nodes[k]));
            k = k + 1;
        }
        Skin { joints }
    }

    /// Every joint names a node of an arena of `len` nodes.
    pub open spec fn joints_in_bounds(&self, len: nat) -> bool {
        forall|k: int| 0 <= k < self.joints@.len() ==> (#[trigger] self.joints@[k]).node < len
    }

    /// Builds the joint matrices of a mesh posed by this skin: for joint `k`,
    /// `combine(inverse_mesh_global, globals[joint.node], joint.bind_matrix)`,
    /// which maps a vertex from the joint's bind space through the joint's
    /// current pose into the mesh node's local space.
    pub fn joint_matrices<F: Fn(M, M, M) -> M>(
        &self,
        inverse_mesh_global: M,
        globals: &Vec<M>,
        combine: F,
    ) -> (r: Vec<M>)
        requires
            self.joints_in_bounds(globals.len() as nat),
            forall|a: M, b: M, c: M| combine.requires((a, b, c)),
        ensures
            r@.len() == self.joints@.len(),
            forall|k: int|
                0 <= k < r@.len() ==> combine.ensures(
                    (
                        inverse_mesh_global,
                        globals@[self.joints@[k].node as int],
                        self.joints@[k].bind_matrix,
                    ),
                    #[trigger] r@[k],
                ),
    {
        let mut out: Vec<M> = Vec::new();
        let mut k: usize = 0;
        while k < self.joints.len()
            invariant
                self.joints_in_bounds(globals.len() as nat),
                forall|a: M, b: M, c: M| combine.requires((a, b, c)),
                0 <= k <= self.joints@.len(),
                out@.len() == k,
                forall|j: int|
                    0 <= j < k ==> combine.ensures(
                        (
                            inverse_mesh_global,
                            globals@[self.joints@[j].node as int],
                            self.joints@[j].bind_matrix,
                        ),
                        #[trigger] out@[j],
                    ),
            decreases self.joints@.len() - k,
        {
            let joint = self.joints[k];
            assert(joint.node < globals.len());
            let m = combine(inverse_mesh_global, globals[joint.node], joint.bind_matrix);
            out.push(m);
            k = k + 1;
        }
        out
    }
}

} // verus!
