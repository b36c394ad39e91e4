//! The cache as a mathematical value, the steps it can take and what holds
//! of them.

use crate::lru_cache::{
    distinct_keys, has_key, index_of_key, inserted, lemma_inserted, lemma_touched, sizes_of,
    sum_of, touched,
};
use crate::payload::{Arrival, NodeId};
use crate::view::NodeView;
use vstd::prelude::*;

verus! {

/// The largest number of nodes that may be loading at one time. After the
/// camera moves, what was asked for may no longer be in sight; the bound
/// keeps such loads from piling up.
pub const MAX_REQUESTED: usize = 10;

/// One thing that a caller can do to a cache.
pub enum Step {
    /// A node is looked up for drawing.
    Access(NodeId),
    /// Nodes are asked for without being looked up.
    RequestAll(Seq<NodeId>),
    /// The view of a node comes in.
    Insert(NodeId, NodeView),
    /// The load of a node fails.
    Fail(NodeId),
    /// What arrived from the loader is taken in, with the views made of
    /// the payloads.
    Absorb(Seq<Arrival>, Seq<NodeView>),
    /// The queued requests are handed to the loader.
    TakeRequests,
}

/// What a cache holds at one moment.
#[verifier::ext_equal]
pub struct CacheState {
    /// The number of views that may be resident.
    pub capacity: nat,
    /// The resident views with their nodes, the most recently used first.
    pub resident: Seq<(NodeId, NodeView)>,
    /// The nodes that are being loaded.
    pub in_flight: Set<NodeId>,
    /// The nodes whose load was admitted and not yet handed to the loader,
    /// the earliest first.
    pub outbox: Seq<NodeId>,
}

impl CacheState {
    /// The state of a new cache for `capacity` views.
    pub open spec fn empty(capacity: nat) -> CacheState {
        CacheState { capacity, resident: Seq::empty(), in_flight: Set::empty(), outbox: Seq::empty() }
    }

    /// The node has a resident view.
    pub open spec fn is_resident(self, id: NodeId) -> bool {
        has_key(self.resident, id)
    }

    /// The resident view of a node.
    pub open spec fn view_of(self, id: NodeId) -> NodeView {
        self.resident[index_of_key(self.resident, id)].1
    }

    /// The bytes that all resident views occupy together.
    pub open spec fn used_bytes(self) -> nat {
        sum_of(sizes_of(self.resident))
    }

    /// What every cache keeps: at most `MAX_REQUESTED` nodes are loading, no
    /// node is resident and loading at once, no more views are resident than
    /// the capacity allows, and no node has two of them.
    pub open spec fn wf(self) -> bool {
        &&& self.in_flight.finite()
        &&& self.in_flight.len() <= MAX_REQUESTED
        &&& forall|id: NodeId| #[trigger] self.in_flight.contains(id) ==> !self.is_resident(id)
        &&& self.resident.len() <= self.capacity
        &&& distinct_keys(self.resident)
    }

    /// A load of the node may start: the node is neither resident nor
    /// loading, and fewer than `MAX_REQUESTED` nodes are.
    pub open spec fn admits(self, id: NodeId) -> bool {
        &&& !self.is_resident(id)
        &&& !self.in_flight.contains(id)
        &&& self.in_flight.len() < MAX_REQUESTED
    }

    /// Asking for a node: where a load may start the node is marked as
    /// loading and queued for the loader; else nothing changes.
    pub open spec fn request(self, id: NodeId) -> CacheState {
        if self.admits(id) {
            CacheState { in_flight: self.in_flight.insert(id), outbox: self.outbox.push(id), ..self }
        } else {
            self
        }
    }

    /// Asking for several nodes, one after the other.
    pub open spec fn request_all(self, ids: Seq<NodeId>) -> CacheState
        decreases ids.len(),
    {
        if ids.len() == 0 {
            self
        } else {
            self.request_all(ids.drop_last()).request(ids.last())
        }
    }

    /// Looking a node up for drawing: a resident node becomes the most
    /// recently used; any other is asked for.
    pub open spec fn access(self, id: NodeId) -> CacheState {
        if self.is_resident(id) {
            CacheState { resident: touched(self.resident, id), ..self }
        } else {
            self.request(id)
        }
    }

    /// The view of a node comes in: the node is no longer loading, and its
    /// view becomes the most recently used one.
    pub open spec fn insert(self, id: NodeId, view: NodeView) -> CacheState {
        CacheState {
            in_flight: self.in_flight.remove(id),
            resident: inserted(self.resident, self.capacity, id, view),
            ..self
        }
    }

    /// The load of a node failed: the node is no longer loading and may be
    /// asked for again.
    pub open spec fn fail(self, id: NodeId) -> CacheState {
        CacheState { in_flight: self.in_flight.remove(id), ..self }
    }

    /// What arrived from the loader is taken in, one after the other; for
    /// arrival `i` that brought a payload, `views[i]` is the view made of it.
    pub open spec fn absorb(self, arrivals: Seq<Arrival>, views: Seq<NodeView>) -> CacheState
        decreases arrivals.len(),
    {
        if arrivals.len() == 0 {
            self
        } else {
            let before = self.absorb(arrivals.drop_last(), views.drop_last());
            match arrivals.last() {
                Arrival::Loaded(id, _) => before.insert(id, views.last()),
                Arrival::Failed(id) => before.fail(id),
            }
        }
    }

    /// The queued requests were handed to the loader.
    pub open spec fn take_requests(self) -> CacheState {
        CacheState { outbox: Seq::empty(), ..self }
    }

    /// The state after one step.
    pub open spec fn step(self, step: Step) -> CacheState {
        match step {
            Step::Access(id) => self.access(id),
            Step::RequestAll(ids) => self.request_all(ids),
            Step::Insert(id, view) => self.insert(id, view),
            Step::Fail(id) => self.fail(id),
            Step::Absorb(arrivals, views) => self.absorb(arrivals, views),
            Step::TakeRequests => self.take_requests(),
        }
    }

    /// The state after several steps, taken in their order.
    pub open spec fn run(self, steps: Seq<Step>) -> CacheState
        decreases steps.len(),
    {
        if steps.len() == 0 {
            self
        } else {
            self.run(steps.drop_last()).step(steps.last())
        }
    }
}

/// Asking for a node keeps what every cache keeps, and changes nothing but
/// the loading nodes and the queue.
pub proof fn lemma_request_wf(s: CacheState, id: NodeId)
    requires
        s.wf(),
    ensures
        s.request(id).wf(),
        s.request(id).resident == s.resident,
        s.request(id).capacity == s.capacity,
{
}

/// Asking for several nodes keeps what every cache keeps.
pub proof fn lemma_request_all_wf(s: CacheState, ids: Seq<NodeId>)
    requires
        s.wf(),
    ensures
        s.request_all(ids).wf(),
        s.request_all(ids).resident == s.resident,
        s.request_all(ids).capacity == s.capacity,
    decreases ids.len(),
{
    if ids.len() > 0 {
        lemma_request_all_wf(s, ids.drop_last());
        lemma_request_wf(s.request_all(ids.drop_last()), ids.last());
    }
}

/// Looking a node up keeps what every cache keeps.
pub proof fn lemma_access_wf(s: CacheState, id: NodeId)
    requires
        s.wf(),
    ensures
        s.access(id).wf(),
{
    lemma_touched(s.resident, id);
    lemma_request_wf(s, id);
}

/// Taking a view in keeps what every cache keeps.
pub proof fn lemma_insert_wf(s: CacheState, id: NodeId, view: NodeView)
    requires
        s.wf(),
    ensures
        s.insert(id, view).wf(),
{
    lemma_inserted(s.resident, s.capacity, id, view);
    let after = s.insert(id, view);
    assert forall|other: NodeId| #[trigger] after.in_flight.contains(other) implies !after.is_resident(
        other,
    ) by {
        assert(s.in_flight.contains(other) && other != id);
        if has_key(after.resident, other) {
            assert(has_key(s.resident, other));
        }
    }
}

/// A failed load keeps what every cache keeps.
pub proof fn lemma_fail_wf(s: CacheState, id: NodeId)
    requires
        s.wf(),
    ensures
        s.fail(id).wf(),
{
}

/// Taking in what arrived keeps what every cache keeps.
pub proof fn lemma_absorb_wf(s: CacheState, arrivals: Seq<Arrival>, views: Seq<NodeView>)
    requires
        s.wf(),
    ensures
        s.absorb(arrivals, views).wf(),
        s.absorb(arrivals, views).capacity == s.capacity,
        s.absorb(arrivals, views).outbox == s.outbox,
    decreases arrivals.len(),
{
    if arrivals.len() > 0 {
        lemma_absorb_wf(s, arrivals.drop_last(), views.drop_last());
        let before = s.absorb(arrivals.drop_last(), views.drop_last());
        match arrivals.last() {
            Arrival::Loaded(id, _) => lemma_insert_wf(before, id, views.last()),
            Arrival::Failed(id) => lemma_fail_wf(before, id),
        }
    }
}

/// Whatever a caller does to a cache, it keeps what every cache keeps.
pub proof fn lemma_step_wf(s: CacheState, step: Step)
    requires
        s.wf(),
    ensures
        s.step(step).wf(),
        s.step(step).capacity == s.capacity,
{
    match step {
        Step::Access(id) => lemma_access_wf(s, id),
        Step::RequestAll(ids) => lemma_request_all_wf(s, ids),
        Step::Insert(id, view) => lemma_insert_wf(s, id, view),
        Step::Fail(id) => lemma_fail_wf(s, id),
        Step::Absorb(arrivals, views) => lemma_absorb_wf(s, arrivals, views),
        Step::TakeRequests => {},
    }
}

/// In every state that a new cache can reach, at most `MAX_REQUESTED` nodes
/// are loading, none of them is resident, and no more views are resident
/// than the cache was made for.
pub proof fn lemma_reachable_states(capacity: nat, steps: Seq<Step>)
    ensures
        CacheState::empty(capacity).run(steps).wf(),
        CacheState::empty(capacity).run(steps).in_flight.len() <= MAX_REQUESTED,
        forall|id: NodeId|
            !(CacheState::empty(capacity).run(steps).in_flight.contains(id) && CacheState::empty(
                capacity,
            ).run(steps).is_resident(id)),
        CacheState::empty(capacity).run(steps).resident.len() <= capacity,
        CacheState::empty(capacity).run(steps).capacity == capacity,
    decreases steps.len(),
{
    if steps.len() > 0 {
        lemma_reachable_states(capacity, steps.drop_last());
        lemma_step_wf(CacheState::empty(capacity).run(steps.drop_last()), steps.last());
    }
}

/// Looking a node up twice in a row asks the loader for it at most once: the
/// first lookup queues the node or nothing, and the second queues nothing
/// and leaves the loading nodes as they are.
pub proof fn lemma_access_twice_requests_once(s: CacheState, id: NodeId)
    requires
        s.wf(),
    ensures
        s.access(id).outbox == s.outbox || s.access(id).outbox == s.outbox.push(id),
        s.access(id).access(id).outbox == s.access(id).outbox,
        s.access(id).access(id).in_flight == s.access(id).in_flight,
{
    lemma_touched(s.resident, id);
}

/// A new node's view that comes into a full cache drives out exactly one
/// view, the least recently used: every other view stays, in its order,
/// behind the new one, and the cache is as full as before.
pub proof fn lemma_insert_evicts_least_recent(s: CacheState, id: NodeId, view: NodeView)
    requires
        s.wf(),
        s.capacity > 0,
        s.resident.len() == s.capacity,
        !s.is_resident(id),
    ensures
        s.insert(id, view).resident == seq![(id, view)] + s.resident.drop_last(),
        s.insert(id, view).resident.len() == s.capacity,
        s.insert(id, view).is_resident(id),
        !s.insert(id, view).is_resident(s.resident.last().0),
        forall|other: NodeId|
            s.is_resident(other) && other != s.resident.last().0 ==> #[trigger] s.insert(
                id,
                view,
            ).is_resident(other),
{
    let entries = s.resident;
    let oldest = entries.last();
    let after = s.insert(id, view).resident;
    assert(after == seq![(id, view)] + entries.drop_last());
    assert(has_key(after, id)) by {
        assert(after[0].0 == id);
    }
    assert(!has_key(after, oldest.0)) by {
        assert forall|a: int| 0 <= a < after.len() implies (#[trigger] after[a]).0 != oldest.0 by {
            if a == 0 {
                assert(entries[entries.len() - 1].0 == oldest.0);
            } else {
                assert(after[a] == entries[a - 1]);
                assert(entries[a - 1].0 != entries[entries.len() - 1].0);
            }
        }
    }
    assert forall|other: NodeId| s.is_resident(other) && other != oldest.0 implies #[trigger] s.insert(
        id,
        view,
    ).is_resident(other) by {
        let j = index_of_key(entries, other);
        assert(entries[j].0 == other);
        assert(j < entries.len() - 1);
        assert(after[j + 1] == entries[j]);
    }
}

/// However many views are resident, one more view never makes them more
/// than the capacity.
pub proof fn lemma_insert_within_capacity(s: CacheState, id: NodeId, view: NodeView)
    requires
        s.wf(),
    ensures
        s.insert(id, view).resident.len() <= s.capacity,
{
    lemma_inserted(s.resident, s.capacity, id, view);
}

/// Looking a resident node up makes it the most recently used, so that the
/// view of another node that comes in next does not drive it out. A cache
/// for a single view cannot keep both.
pub proof fn lemma_access_protects_from_eviction(
    s: CacheState,
    id: NodeId,
    other: NodeId,
    view: NodeView,
)
    requires
        s.wf(),
        s.capacity >= 2,
        s.is_resident(id),
        other != id,
    ensures
        s.access(id).resident[0] == (id, s.view_of(id)),
        s.access(id).insert(other, view).is_resident(id),
        s.access(id).insert(other, view).view_of(id) == s.view_of(id),
{
    lemma_touched(s.resident, id);
    let used = s.access(id);
    lemma_access_wf(s, id);
    lemma_inserted(used.resident, used.capacity, other, view);
    let after = used.insert(other, view).resident;
    assert(used.resident[0].0 == id);
    if has_key(used.resident, other) {
        let i = index_of_key(used.resident, other);
        assert(after[1] == used.resident[0]);
    } else {
        assert(after[1] == used.resident[0]);
    }
    assert(has_key(after, id));
    let at = index_of_key(after, id);
    assert(distinct_keys(after));
    assert(at == 1) by {
        if at < 1 {
            assert(after[at].0 != after[1].0);
        } else if at > 1 {
            assert(after[1].0 != after[at].0);
        }
    }
}

} // verus!
