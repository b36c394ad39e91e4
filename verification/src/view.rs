//! The drawable form of a node.

use crate::payload::{point_records, NodeData, NodeMeta, COLOR_BYTES_PER_POINT};
use crate::shuffle::{
    identity_order, indices_below, is_permutation, lemma_map_keeps_rearrangement,
    lemma_permutation_rearranges_identity, lemma_reshuffled_record, reshuffle, reshuffled,
    shuffled_indices,
};
use vstd::prelude::*;

verus! {

/// A node made ready for drawing: its points in an order that lets a caller
/// draw any prefix of them.
#[derive(Debug)]
pub struct NodeView {
    pub meta: NodeMeta,
    pub position: Vec<u8>,
    pub color: Vec<u8>,
    pub used_memory_bytes: usize,
}

impl NodeView {
    /// The points of the view in drawing order.
    pub open spec fn points(&self) -> Seq<(Seq<u8>, Seq<u8>)> {
        point_records(
            self.position@,
            self.color@,
            self.meta.position_encoding.stride(),
            self.meta.num_points as nat,
        )
    }

    /// The view holds the points of `data` in the order `order`: both buffers
    /// are rearranged alike, and the bytes of both are accounted for.
    pub open spec fn shows(&self, data: NodeData, order: Seq<usize>) -> bool {
        &&& self.meta == data.meta
        &&& self.position@ == reshuffled(order, data.position@, data.meta.position_encoding.stride())
        &&& self.color@ == reshuffled(order, data.color@, COLOR_BYTES_PER_POINT as nat)
        &&& self.used_memory_bytes == self.position@.len() + self.color@.len()
    }

    /// The view holds the points of `data` in some order that names every
    /// point once.
    pub open spec fn materializes(&self, data: NodeData) -> bool {
        exists|order: Seq<usize>|
            is_permutation(order, data.meta.num_points as nat) && #[trigger] self.shows(data, order)
    }

    /// Builds the view that draws point `order[j]` of the payload as its
    /// `j`-th point.
    pub fn new_ordered(node_data: NodeData, order: &[usize]) -> (view: NodeView)
        requires
            node_data.consistent(),
            order@.len() == node_data.meta.num_points,
            indices_below(order@, node_data.meta.num_points as nat),
        ensures
            view.shows(node_data, order@),
    {
        let stride: usize = node_data.meta.position_encoding.bytes_per_point();
        let position = reshuffle(order, node_data.position.as_slice(), stride);
        let color = reshuffle(order, node_data.color.as_slice(), COLOR_BYTES_PER_POINT);
        let used_memory_bytes: usize = position.len() + color.len();
        NodeView { meta: node_data.meta, position, color, used_memory_bytes }
    }

    /// Builds a view that draws the points of the payload in a random order,
    /// so that any prefix of them is an unbiased sample of the node.
    pub fn new(node_data: NodeData) -> (view: NodeView)
        requires
            node_data.consistent(),
        ensures
            view.materializes(node_data),
            view.meta == node_data.meta,
            view.position@.len() == node_data.meta.num_points
                * node_data.meta.position_encoding.stride(),
            view.color@.len() == node_data.meta.num_points * COLOR_BYTES_PER_POINT,
            view.used_memory_bytes == view.position@.len() + view.color@.len(),
            view.points().to_multiset() == node_data.points().to_multiset(),
    {
        let order = shuffled_indices(node_data.meta.num_points);
        let ghost data = node_data;
        let view = NodeView::new_ordered(node_data, order.as_slice());
        proof {
            lemma_materialization_keeps_points(view, data);
        }
        view
    }
}

/// Materializing a payload changes neither the length of a buffer nor the
/// points: the view holds the same pairs of position and color, each as
/// often as the payload does.
pub proof fn lemma_materialization_keeps_points(view: NodeView, data: NodeData)
    requires
        data.consistent(),
        view.materializes(data),
    ensures
        view.position@.len() == data.meta.num_points * data.meta.position_encoding.stride(),
        view.color@.len() == data.meta.num_points * COLOR_BYTES_PER_POINT,
        view.points().to_multiset() == data.points().to_multiset(),
{
    let n = data.meta.num_points as nat;
    let stride = data.meta.position_encoding.stride();
    let order = choose|order: Seq<usize>| is_permutation(order, n) && #[trigger] view.shows(data, order);
    let from = data.points();
    let pick = |i: usize| from[i as int];
    assert(view.points() =~= order.map_values(pick)) by {
        assert forall|j: int| 0 <= j < n implies view.points()[j] == from[order[j] as int] by {
            lemma_reshuffled_record(order, data.position@, stride, j);
            lemma_reshuffled_record(order, data.color@, COLOR_BYTES_PER_POINT as nat, j);
        }
    }
    assert(from =~= identity_order(n).map_values(pick));
    lemma_permutation_rearranges_identity(order, n);
    lemma_map_keeps_rearrangement(order, identity_order(n), pick);
}

} // verus!
