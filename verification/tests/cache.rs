use node_views::{
    Arrival, NodeData, NodeId, NodeMeta, NodeView, NodeViewContainer, PositionEncoding,
    MAX_NODES_IN_MEMORY, MAX_REQUESTED,
};

fn payload(num_points: usize) -> NodeData {
    NodeData {
        position: vec![7; num_points * 6],
        color: vec![9; num_points * 3],
        meta: NodeMeta { num_points, position_encoding: PositionEncoding::Uint16 },
    }
}

fn view(num_points: usize) -> NodeView {
    NodeView::new(payload(num_points))
}

fn resident(container: &NodeViewContainer, ids: &[NodeId]) -> Vec<bool> {
    ids.iter().map(|id| container.is_resident(id)).collect()
}

#[test]
fn new_cache_is_empty() {
    let mut container = NodeViewContainer::new(4);
    assert!(!container.is_resident(&1));
    assert!(!container.is_requested(&1));
    assert_eq!(container.get_used_memory_bytes(), 0);
    assert!(container.take_requests().is_empty());
}

#[test]
fn largest_cache_can_be_made() {
    let container = NodeViewContainer::new(MAX_NODES_IN_MEMORY);
    assert_eq!(container.get_used_memory_bytes(), 0);
}

#[test]
fn in_flight_cap_admits_ten_of_fifteen() {
    let mut container = NodeViewContainer::new(100);
    for id in 0..15 {
        assert!(container.get_or_request(&id).is_none());
    }
    for id in 0..10 {
        assert!(container.is_requested(&id));
    }
    for id in 10..15 {
        assert!(!container.is_requested(&id));
    }
    assert_eq!(container.take_requests(), (0..10).collect::<Vec<NodeId>>());

    // Once a load has come in there is room for one of the dropped nodes.
    assert!(container.consume_arrived_nodes(vec![Arrival::Loaded(0, payload(1))]));
    for id in 10..15 {
        assert!(container.get_or_request(&id).is_none());
    }
    assert_eq!(container.take_requests(), vec![10]);
    assert!(container.is_requested(&10));
    assert!(!container.is_requested(&11));
}

#[test]
fn in_flight_cap_is_ten() {
    assert_eq!(MAX_REQUESTED, 10);
}

#[test]
fn third_insert_evicts_the_first() {
    let mut container = NodeViewContainer::new(2);
    container.insert_view(1, view(1));
    container.insert_view(2, view(1));
    container.insert_view(3, view(1));
    assert_eq!(resident(&container, &[1, 2, 3]), vec![false, true, true]);
}

#[test]
fn arrivals_evict_in_order_of_arrival() {
    let mut container = NodeViewContainer::new(2);
    let arrived = vec![
        Arrival::Loaded(1, payload(1)),
        Arrival::Loaded(2, payload(1)),
        Arrival::Loaded(3, payload(1)),
    ];
    assert!(container.consume_arrived_nodes(arrived));
    assert_eq!(resident(&container, &[1, 2, 3]), vec![false, true, true]);
}

#[test]
fn failed_load_can_be_asked_for_again() {
    let mut container = NodeViewContainer::new(4);
    assert!(container.get_or_request(&5).is_none());
    assert!(container.get_or_request(&6).is_none());
    assert_eq!(container.take_requests(), vec![5, 6]);

    let consumed = container.consume_arrived_nodes(vec![Arrival::Failed(5), Arrival::Loaded(6, payload(2))]);
    assert!(consumed);
    assert!(!container.is_requested(&5));
    assert!(!container.is_resident(&5));
    assert!(container.is_resident(&6));

    assert!(container.get_or_request(&5).is_none());
    assert!(container.is_requested(&5));
    assert_eq!(container.take_requests(), vec![5]);
}

#[test]
fn only_failures_consume_nothing() {
    let mut container = NodeViewContainer::new(4);
    assert!(container.get_or_request(&1).is_none());
    assert!(!container.consume_arrived_nodes(vec![Arrival::Failed(1)]));
    assert!(!container.is_requested(&1));
}

#[test]
fn no_arrival_consumes_nothing() {
    let mut container = NodeViewContainer::new(4);
    assert!(!container.consume_arrived_nodes(Vec::new()));
}

#[test]
fn fetch_failed_frees_the_node() {
    let mut container = NodeViewContainer::new(4);
    assert!(container.get_or_request(&1).is_none());
    container.fetch_failed(1);
    assert!(!container.is_requested(&1));
    assert!(!container.is_resident(&1));
}

#[test]
fn second_lookup_asks_no_second_time() {
    let mut container = NodeViewContainer::new(4);
    assert!(container.get_or_request(&8).is_none());
    assert!(container.get_or_request(&8).is_none());
    assert_eq!(container.take_requests(), vec![8]);
    // Handing the request on does not make the node new again.
    assert!(container.get_or_request(&8).is_none());
    assert!(container.take_requests().is_empty());
}

#[test]
fn lookup_of_a_resident_node_asks_for_nothing() {
    let mut container = NodeViewContainer::new(4);
    container.insert_view(8, view(3));
    let found = container.get_or_request(&8).map(|view| view.used_memory_bytes);
    assert_eq!(found, Some(27));
    assert!(!container.is_requested(&8));
    assert!(container.take_requests().is_empty());
}

#[test]
fn lookup_returns_the_view_of_the_node() {
    let mut container = NodeViewContainer::new(4);
    container.insert_view(1, view(1));
    container.insert_view(2, view(5));
    let found = container.get_or_request(&2).map(|view| view.meta.num_points);
    assert_eq!(found, Some(5));
    let found = container.get_or_request(&1).map(|view| view.meta.num_points);
    assert_eq!(found, Some(1));
}

#[test]
fn arrival_ends_the_loading() {
    let mut container = NodeViewContainer::new(4);
    assert!(container.get_or_request(&3).is_none());
    assert!(container.is_requested(&3));
    assert!(container.consume_arrived_nodes(vec![Arrival::Loaded(3, payload(1))]));
    assert!(!container.is_requested(&3));
    assert!(container.is_resident(&3));
    assert!(container.get_or_request(&3).is_some());
}

#[test]
fn no_node_is_resident_and_loading() {
    let mut container = NodeViewContainer::new(3);
    let ids: Vec<NodeId> = (0..20).collect();
    container.request_all(&ids);
    container.consume_arrived_nodes(vec![
        Arrival::Loaded(0, payload(1)),
        Arrival::Loaded(1, payload(1)),
        Arrival::Failed(2),
        Arrival::Loaded(3, payload(1)),
        Arrival::Loaded(4, payload(1)),
    ]);
    container.request_all(&ids);
    let mut loading = 0;
    let mut kept = 0;
    for id in &ids {
        assert!(!(container.is_resident(id) && container.is_requested(id)));
        if container.is_requested(id) {
            loading += 1;
        }
        if container.is_resident(id) {
            kept += 1;
        }
    }
    assert_eq!(loading, 10);
    assert_eq!(kept, 3);
}

#[test]
fn full_cache_evicts_one_view() {
    let mut container = NodeViewContainer::new(3);
    for id in 1..=3 {
        container.insert_view(id, view(1));
    }
    container.insert_view(4, view(1));
    assert_eq!(resident(&container, &[1, 2, 3, 4]), vec![false, true, true, true]);
}

#[test]
fn lookup_protects_from_the_next_eviction() {
    let mut container = NodeViewContainer::new(2);
    container.insert_view(1, view(1));
    container.insert_view(2, view(1));
    assert!(container.get_or_request(&1).is_some());
    container.insert_view(3, view(1));
    assert_eq!(resident(&container, &[1, 2, 3]), vec![true, false, true]);
}

#[test]
fn cache_for_one_view_keeps_the_newest() {
    let mut container = NodeViewContainer::new(1);
    container.insert_view(1, view(1));
    assert!(container.get_or_request(&1).is_some());
    container.insert_view(2, view(1));
    assert_eq!(resident(&container, &[1, 2]), vec![false, true]);
}

#[test]
fn cache_for_no_view_stays_empty() {
    let mut container = NodeViewContainer::new(0);
    assert!(container.get_or_request(&1).is_none());
    assert!(container.consume_arrived_nodes(vec![Arrival::Loaded(1, payload(2))]));
    assert!(!container.is_resident(&1));
    assert!(!container.is_requested(&1));
    assert_eq!(container.get_used_memory_bytes(), 0);
}

#[test]
fn new_view_replaces_the_old_one() {
    let mut container = NodeViewContainer::new(2);
    container.insert_view(1, view(1));
    container.insert_view(2, view(1));
    container.insert_view(1, view(4));
    assert_eq!(resident(&container, &[1, 2]), vec![true, true]);
    assert_eq!(container.get_used_memory_bytes(), 36 + 9);
    // Node 1 is now the most recently used: the next view drives out node 2.
    container.insert_view(3, view(1));
    assert_eq!(resident(&container, &[1, 2, 3]), vec![true, false, true]);
}

#[test]
fn used_memory_is_the_sum_over_the_views() {
    let mut container = NodeViewContainer::new(2);
    container.insert_view(1, view(10));
    assert_eq!(container.get_used_memory_bytes(), 90);
    container.insert_view(2, view(3));
    assert_eq!(container.get_used_memory_bytes(), 117);
    container.insert_view(3, view(1));
    assert_eq!(container.get_used_memory_bytes(), 36);
}

#[test]
fn used_memory_stops_at_the_largest_number() {
    let mut container = NodeViewContainer::new(2);
    let huge = |bytes: usize| NodeView {
        meta: NodeMeta { num_points: 0, position_encoding: PositionEncoding::Uint8 },
        position: Vec::new(),
        color: Vec::new(),
        used_memory_bytes: bytes,
    };
    container.insert_view(1, huge(usize::MAX - 1));
    container.insert_view(2, huge(5));
    assert_eq!(container.get_used_memory_bytes(), usize::MAX);
}

#[test]
fn request_all_asks_in_order_up_to_the_cap() {
    let mut container = NodeViewContainer::new(100);
    container.insert_view(2, view(1));
    let ids: Vec<NodeId> = vec![4, 2, 4, 9, 1, 11, 12, 13, 14, 15, 16, 17, 18, 19];
    container.request_all(&ids);
    assert_eq!(container.take_requests(), vec![4, 9, 1, 11, 12, 13, 14, 15, 16, 17]);
    assert!(!container.is_requested(&2));
    assert!(!container.is_requested(&18));
    assert!(!container.is_requested(&19));
}

#[test]
fn request_all_marks_nothing_as_used() {
    let mut container = NodeViewContainer::new(2);
    container.insert_view(1, view(1));
    container.insert_view(2, view(1));
    container.request_all(&[1]);
    container.insert_view(3, view(1));
    assert_eq!(resident(&container, &[1, 2, 3]), vec![false, true, true]);
}

#[test]
fn requests_are_handed_out_once() {
    let mut container = NodeViewContainer::new(4);
    container.request_all(&[3, 1, 2]);
    assert_eq!(container.take_requests(), vec![3, 1, 2]);
    assert!(container.take_requests().is_empty());
    assert!(container.is_requested(&3));
}

#[test]
fn consumed_payload_becomes_a_view_of_its_points() {
    let mut container = NodeViewContainer::new(4);
    let data = NodeData {
        position: (0..48).collect(),
        color: (100..112).collect(),
        meta: NodeMeta { num_points: 4, position_encoding: PositionEncoding::Float32 },
    };
    assert!(container.consume_arrived_nodes(vec![Arrival::Loaded(7, data)]));
    let view = container.get_or_request(&7).expect("the node has arrived");
    assert_eq!(view.position.len(), 48);
    assert_eq!(view.color.len(), 12);
    assert_eq!(view.used_memory_bytes, 60);
    let mut points: Vec<(Vec<u8>, Vec<u8>)> = view
        .position
        .chunks(12)
        .zip(view.color.chunks(3))
        .map(|(p, c)| (p.to_vec(), c.to_vec()))
        .collect();
    points.sort();
    let expected: Vec<(Vec<u8>, Vec<u8>)> = (0..4u8)
        .map(|i| ((12 * i..12 * i + 12).collect(), (100 + 3 * i..103 + 3 * i).collect()))
        .collect();
    assert_eq!(points, expected);
    assert_eq!(container.get_used_memory_bytes(), 60);
}
