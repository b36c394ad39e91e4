//! A streaming cache of point cloud nodes.
//!
//! The cache decides which octree nodes are resident, which are being loaded
//! and which loads to ask for next. It never blocks and performs no I/O: the
//! caller hands it what arrived from the loader and forwards the requests it
//! has admitted.

pub mod container;
pub mod lru_cache;
pub mod payload;
pub mod program;
pub mod requested;
pub mod shuffle;
pub mod state;
pub mod view;

pub use container::{NodeViewContainer, MAX_NODES_IN_MEMORY};
pub use payload::{Arrival, NodeData, NodeId, NodeMeta, PositionEncoding, COLOR_BYTES_PER_POINT};
pub use program::{ComponentType, NodeDrawer, NodeProgram, PositionAttribute};
pub use shuffle::reshuffle;
pub use state::{CacheState, MAX_REQUESTED};
pub use view::NodeView;
