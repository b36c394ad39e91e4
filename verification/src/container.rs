//! The cache of node views.

use crate::lru_cache::{
    lru_cap, lru_contains, lru_entries, lru_get, lru_new, lru_put, lru_sizes, sum_of, MAX_ENTRIES,
};
use crate::payload::{Arrival, NodeId};
use crate::requested::{set_contains, set_insert, set_len, set_remove};
use crate::state::{
    lemma_access_wf, lemma_fail_wf, lemma_insert_wf, lemma_request_wf, CacheState, MAX_REQUESTED,
};
use crate::view::NodeView;
use fnv::FnvHashSet;
use lru::LruCache;
use vstd::prelude::*;

verus! {

/// The largest number of views that a cache can be made for.
pub const MAX_NODES_IN_MEMORY: usize = MAX_ENTRIES;

/// Keeps the views of the nodes that were used last, and keeps track of the
/// nodes that are being loaded.
///
/// The bound on the resident views counts views, not bytes: nodes differ in
/// their number of points and in their encoding, so this bounds the memory
/// only roughly. `get_used_memory_bytes` tells what the views occupy.
pub struct NodeViewContainer {
    node_views: LruCache<NodeId, NodeView>,
    // The nodes that the loader is working on or about to be given.
    requested: FnvHashSet<NodeId>,
    // The admitted requests that the caller has not yet taken.
    outbox: Vec<NodeId>,
}

impl View for NodeViewContainer {
    type V = CacheState;

    closed spec fn view(&self) -> CacheState {
        CacheState {
            capacity: lru_cap(self.node_views),
            resident: lru_entries(self.node_views),
            in_flight: self.requested@,
            outbox: self.outbox@,
        }
    }
}

impl NodeViewContainer {
    /// Makes an empty cache that keeps at most `max_nodes_in_memory` views.
    pub fn new(max_nodes_in_memory: usize) -> (container: Self)
        requires
            max_nodes_in_memory <= MAX_NODES_IN_MEMORY,
        ensures
            container@ == CacheState::empty(max_nodes_in_memory as nat),
            container@.wf(),
    {
        let container = NodeViewContainer {
            node_views: lru_new(max_nodes_in_memory),
            requested: FnvHashSet::default(),
            outbox: Vec::new(),
        };
        assert(container@ =~= CacheState::empty(max_nodes_in_memory as nat));
        container
    }

    /// Takes in what arrived from the loader, in the order of arrival. A
    /// payload is made into a view with its points in a random order, and
    /// the view becomes resident; a failed load only frees the node to be
    /// asked for again. Tells whether any payload arrived, in which case what
    /// can be drawn may have changed.
    pub fn consume_arrived_nodes(&mut self, arrived: Vec<Arrival>) -> (consumed_any: bool)
        requires
            old(self)@.wf(),
            forall|i: int|
                0 <= i < arrived@.len() ==> match #[trigger] arrived@[i] {
                    Arrival::Loaded(_, node_data) => node_data.consistent(),
                    Arrival::Failed(_) => true,
                },
        ensures
            final(self)@.wf(),
            consumed_any == exists|i: int|
                0 <= i < arrived@.len() && #[trigger] arrived@[i] is Loaded,
            exists|views: Seq<NodeView>|
                {
                    &&& views.len() == arrived@.len()
                    &&& forall|i: int|
                        0 <= i < arrived@.len() ==> match #[trigger] arrived@[i] {
                            Arrival::Loaded(_, node_data) => views[i].materializes(node_data),
                            Arrival::Failed(_) => true,
                        }
                    &&& final(self)@ == old(self)@.absorb(arrived@, views)
                },
    {
        let mut consumed_any = false;
        let ghost arrivals = arrived@;
        let ghost mut views: Seq<NodeView> = Seq::empty();
        for arrival in it: arrived
            invariant
                it.seq() == arrivals,
                old(self)@.wf(),
                forall|i: int|
                    0 <= i < arrivals.len() ==> match #[trigger] arrivals[i] {
                        Arrival::Loaded(_, node_data) => node_data.consistent(),
                        Arrival::Failed(_) => true,
                    },
                views.len() == it.index(),
                forall|i: int|
                    0 <= i < it.index() ==> match #[trigger] arrivals[i] {
                        Arrival::Loaded(_, node_data) => views[i].materializes(node_data),
                        Arrival::Failed(_) => true,
                    },
                consumed_any == exists|i: int|
                    0 <= i < it.index() && #[trigger] arrivals[i] is Loaded,
                self@ == old(self)@.absorb(arrivals.take(it.index()), views),
                self@.wf(),
        {
            let ghost done = it.index();
            let ghost views_before = views;
            assert(arrivals.take(done + 1).drop_last() =~= arrivals.take(done));
            assert(arrivals.take(done + 1).last() == arrivals[done]);
            match arrival {
                Arrival::Loaded(node_id, node_data) => {
                    let view = NodeView::new(node_data);
                    proof {
                        views = views.push(view);
                    }
                    self.insert_view(node_id, view);
                    consumed_any = true;
                },
                Arrival::Failed(node_id) => {
                    proof {
                        views = views.push(arbitrary());
                    }
                    self.fetch_failed(node_id);
                },
            }
            assert(views.drop_last() =~= views_before);
        }
        assert(arrivals.take(arrivals.len() as int) =~= arrivals);
        consumed_any
    }

    /// Makes `view` the resident view of the node, as the most recently used
    /// one, and ends the node's loading. A view that the node had before is
    /// dropped; where the cache is full and the node is new to it, the view
    /// that was used least recently is dropped.
    pub fn insert_view(&mut self, node_id: NodeId, view: NodeView)
        requires
            old(self)@.wf(),
        ensures
            final(self)@ == old(self)@.insert(node_id, view),
            final(self)@.wf(),
    {
        set_remove(&mut self.requested, &node_id);
        lru_put(&mut self.node_views, node_id, view);
        proof {
            assert(self@ =~= old(self)@.insert(node_id, view));
            lemma_insert_wf(old(self)@, node_id, view);
        }
    }

    /// Ends the loading of a node whose load failed, so that it can be asked
    /// for again.
    pub fn fetch_failed(&mut self, node_id: NodeId)
        requires
            old(self)@.wf(),
        ensures
            final(self)@ == old(self)@.fail(node_id),
            final(self)@.wf(),
    {
        set_remove(&mut self.requested, &node_id);
        proof {
            assert(self@ =~= old(self)@.fail(node_id));
            lemma_fail_wf(old(self)@, node_id);
        }
    }

    /// Returns the view of the node if it is resident, and marks it as the
    /// most recently used. Otherwise returns `None` and asks for the node,
    /// unless it is loading already or too many nodes are.
    pub fn get_or_request(&mut self, node_id: &NodeId) -> (view: Option<&NodeView>)
        requires
            old(self)@.wf(),
        ensures
            final(self)@ == old(self)@.access(*node_id),
            final(self)@.wf(),
            match view {
                Some(found) => old(self)@.is_resident(*node_id) && *found == old(self)@.view_of(
                    *node_id,
                ),
                None => !old(self)@.is_resident(*node_id),
            },
    {
        proof {
            lemma_access_wf(old(self)@, *node_id);
        }
        if lru_contains(&self.node_views, node_id) {
            return lru_get(&mut self.node_views, node_id);
        }
        self.request(*node_id);
        None
    }

    /// Asks for every node of `node_ids` that is neither resident nor
    /// loading, in their order, as long as fewer than `MAX_REQUESTED` nodes
    /// are loading. Resident views are neither returned nor marked as used.
    pub fn request_all(&mut self, node_ids: &[NodeId])
        requires
            old(self)@.wf(),
        ensures
            final(self)@ == old(self)@.request_all(node_ids@),
            final(self)@.wf(),
    {
        let mut i: usize = 0;
        while i < node_ids.len()
            invariant
                i <= node_ids@.len(),
                old(self)@.wf(),
                self@ == old(self)@.request_all(node_ids@.take(i as int)),
                self@.wf(),
            decreases node_ids@.len() - i,
        {
            assert(node_ids@.take(i + 1).drop_last() =~= node_ids@.take(i as int));
            self.request(node_ids[i]);
            i += 1;
        }
        assert(node_ids@.take(i as int) =~= node_ids@);
    }

    /// The bytes that the resident views occupy together; `usize::MAX`
    /// should the sum be larger.
    pub fn get_used_memory_bytes(&self) -> (bytes: usize)
        ensures
            bytes == if self@.used_bytes() <= usize::MAX {
                self@.used_bytes()
            } else {
                usize::MAX as nat
            },
    {
        let sizes = lru_sizes(&self.node_views);
        let mut bytes: usize = 0;
        let mut i: usize = 0;
        while i < sizes.len()
            invariant
                i <= sizes@.len(),
                bytes == if sum_of(sizes@.take(i as int)) <= usize::MAX {
                    sum_of(sizes@.take(i as int))
                } else {
                    usize::MAX as nat
                },
            decreases sizes@.len() - i,
        {
            assert(sizes@.take(i + 1).drop_last() =~= sizes@.take(i as int));
            bytes = bytes.saturating_add(sizes[i]);
            i += 1;
        }
        assert(sizes@.take(i as int) =~= sizes@);
        bytes
    }

    /// Hands out the requests that were admitted since the last call, the
    /// earliest first, for the caller to pass on to the loader.
    pub fn take_requests(&mut self) -> (requests: Vec<NodeId>)
        ensures
            requests@ == old(self)@.outbox,
            final(self)@ == old(self)@.take_requests(),
            old(self)@.wf() ==> final(self)@.wf(),
    {
        let mut requests: Vec<NodeId> = Vec::new();
        core::mem::swap(&mut self.outbox, &mut requests);
        assert(self@ =~= old(self)@.take_requests());
        requests
    }

    /// Tells whether the node has a resident view, without marking it as
    /// used.
    pub fn is_resident(&self, node_id: &NodeId) -> (resident: bool)
        ensures
            resident == self@.is_resident(*node_id),
    {
        lru_contains(&self.node_views, node_id)
    }

    /// Tells whether the node is being loaded.
    pub fn is_requested(&self, node_id: &NodeId) -> (requested: bool)
        ensures
            requested == self@.in_flight.contains(*node_id),
    {
        set_contains(&self.requested, node_id)
    }

    // Starts the load of a node where one may start.
    fn request(&mut self, node_id: NodeId)
        requires
            old(self)@.wf(),
        ensures
            final(self)@ == old(self)@.request(node_id),
            final(self)@.wf(),
    {
        proof {
            lemma_request_wf(old(self)@, node_id);
        }
        if !lru_contains(&self.node_views, &node_id) && !set_contains(&self.requested, &node_id)
            && set_len(&self.requested) < MAX_REQUESTED {
            set_insert(&mut self.requested, node_id);
            self.outbox.push(node_id);
            assert(self@ =~= old(self)@.request(node_id));
        }
    }
}

} // verus!
