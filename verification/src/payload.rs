//! What a data source delivers for one octree node.

use vstd::prelude::*;

verus! {

/// Addresses one node of the octree. The cache only compares and hashes it.
pub type NodeId = u64;

/// How the three coordinates of a point are stored.
#[derive(Clone, Copy, Debug, PartialEq, Eq, Structural)]
pub enum PositionEncoding {
    Uint8,
    Uint16,
    Float32,
    Float64,
}

/// Bytes that one color takes: red, green and blue.
pub const COLOR_BYTES_PER_POINT: usize = 3;

impl PositionEncoding {
    /// Bytes that one position takes: three coordinates of 1, 2, 4 or 8 bytes.
    pub open spec fn stride(self) -> nat {
        match self {
            PositionEncoding::Uint8 => 3,
            PositionEncoding::Uint16 => 6,
            PositionEncoding::Float32 => 12,
            PositionEncoding::Float64 => 24,
        }
    }

    /// Computes `stride`.
    pub fn bytes_per_point(self) -> (stride: usize)
        ensures
            stride == self.stride(),
    {
        match self {
            PositionEncoding::Uint8 => 3,
            PositionEncoding::Uint16 => 6,
            PositionEncoding::Float32 => 12,
            PositionEncoding::Float64 => 24,
        }
    }
}

/// The points that two buffers hold together: point `i` is the pair of
/// position record `i` and color record `i`.
pub open spec fn point_records(position: Seq<u8>, color: Seq<u8>, stride: nat, n: nat) -> Seq<
    (Seq<u8>, Seq<u8>),
> {
    Seq::new(
        n,
        |i: int|
            (
                position.subrange(i * stride, i * stride + stride),
                color.subrange(i * COLOR_BYTES_PER_POINT, i * COLOR_BYTES_PER_POINT + COLOR_BYTES_PER_POINT),
            ),
    )
}

/// What is known of a node without looking at its points.
#[derive(Clone, Copy, Debug, PartialEq, Eq, Structural)]
pub struct NodeMeta {
    pub num_points: usize,
    pub position_encoding: PositionEncoding,
}

/// The points of one node as the data source delivered them: a buffer of
/// `num_points` positions and a buffer of as many colors. Record `i` of
/// either buffer belongs to point `i`.
#[derive(Debug)]
pub struct NodeData {
    pub position: Vec<u8>,
    pub color: Vec<u8>,
    pub meta: NodeMeta,
}

impl NodeData {
    /// Both buffers hold exactly `num_points` records, and their lengths can
    /// be added.
    pub open spec fn consistent(&self) -> bool {
        &&& self.position@.len() == self.meta.num_points * self.meta.position_encoding.stride()
        &&& self.color@.len() == self.meta.num_points * COLOR_BYTES_PER_POINT
        &&& self.position@.len() + self.color@.len() <= usize::MAX
    }

    /// The points of the payload in the order of the data source.
    pub open spec fn points(&self) -> Seq<(Seq<u8>, Seq<u8>)> {
        point_records(
            self.position@,
            self.color@,
            self.meta.position_encoding.stride(),
            self.meta.num_points as nat,
        )
    }

    /// Tells whether the buffers fit the point count and the encoding.
    pub fn is_consistent(&self) -> (ok: bool)
        ensures
            ok == self.consistent(),
    {
        let n: usize = self.meta.num_points;
        let stride: usize = self.meta.position_encoding.bytes_per_point();
        match (n.checked_mul(stride), n.checked_mul(COLOR_BYTES_PER_POINT)) {
            (Some(position_len), Some(color_len)) => {
                self.position.len() == position_len && self.color.len() == color_len
                    && position_len.checked_add(color_len).is_some()
            },
            _ => false,
        }
    }
}

/// What the loader reports for one node that the cache asked for.
#[derive(Debug)]
pub enum Arrival {
    /// The data source delivered the node's points.
    Loaded(NodeId, NodeData),
    /// The data source could not deliver the node.
    Failed(NodeId),
}

} // verus!
