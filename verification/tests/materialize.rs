use node_views::shuffle::shuffled_indices;
use node_views::{reshuffle, NodeData, NodeMeta, NodeView, PositionEncoding, COLOR_BYTES_PER_POINT};

fn payload(num_points: usize, position_encoding: PositionEncoding) -> NodeData {
    let stride = position_encoding.bytes_per_point();
    let mut position = Vec::new();
    let mut color = Vec::new();
    for point in 0..num_points {
        for byte in 0..stride {
            position.push((point * 31 + byte * 7) as u8);
        }
        for byte in 0..3 {
            color.push((point * 13 + byte) as u8);
        }
    }
    NodeData { position, color, meta: NodeMeta { num_points, position_encoding } }
}

fn sorted_points(position: &[u8], color: &[u8], stride: usize) -> Vec<(Vec<u8>, Vec<u8>)> {
    let mut points: Vec<(Vec<u8>, Vec<u8>)> = position
        .chunks(stride)
        .zip(color.chunks(3))
        .map(|(p, c)| (p.to_vec(), c.to_vec()))
        .collect();
    points.sort();
    points
}

#[test]
fn reshuffle_moves_whole_records() {
    let data = vec![10, 11, 20, 21, 30, 31];
    assert_eq!(reshuffle(&[2, 0, 1], &data, 2), vec![30, 31, 10, 11, 20, 21]);
}

#[test]
fn reshuffle_with_rising_indices_copies() {
    let data = vec![1, 2, 3, 4, 5, 6, 7, 8, 9];
    assert_eq!(reshuffle(&[0, 1, 2], &data, 3), data);
}

#[test]
fn reshuffle_takes_an_index_twice() {
    let data = vec![1, 2, 3, 4];
    assert_eq!(reshuffle(&[1, 1], &data, 2), vec![3, 4, 3, 4]);
}

#[test]
fn reshuffle_of_nothing_is_empty() {
    let empty: Vec<u8> = Vec::new();
    assert_eq!(reshuffle(&[], &empty, 12), empty);
}

#[test]
fn reshuffle_with_empty_records_is_empty() {
    let empty: Vec<u8> = Vec::new();
    assert_eq!(reshuffle(&[5, 9], &empty, 0), empty);
}

#[test]
fn stride_of_each_encoding() {
    assert_eq!(PositionEncoding::Uint8.bytes_per_point(), 3);
    assert_eq!(PositionEncoding::Uint16.bytes_per_point(), 6);
    assert_eq!(PositionEncoding::Float32.bytes_per_point(), 12);
    assert_eq!(PositionEncoding::Float64.bytes_per_point(), 24);
    assert_eq!(COLOR_BYTES_PER_POINT, 3);
}

#[test]
fn consistent_payload_is_accepted() {
    assert!(payload(4, PositionEncoding::Float32).is_consistent());
    assert!(payload(0, PositionEncoding::Float64).is_consistent());
}

#[test]
fn short_position_buffer_is_inconsistent() {
    let mut data = payload(4, PositionEncoding::Uint16);
    data.position.pop();
    assert!(!data.is_consistent());
}

#[test]
fn long_color_buffer_is_inconsistent() {
    let mut data = payload(4, PositionEncoding::Uint16);
    data.color.push(0);
    assert!(!data.is_consistent());
}

#[test]
fn point_count_beyond_the_buffers_is_inconsistent() {
    let mut data = payload(2, PositionEncoding::Uint8);
    data.meta.num_points = usize::MAX;
    assert!(!data.is_consistent());
}

#[test]
fn float32_view_of_four_points() {
    let view = NodeView::new(payload(4, PositionEncoding::Float32));
    assert_eq!(view.position.len(), 48);
    assert_eq!(view.color.len(), 12);
    assert_eq!(view.used_memory_bytes, 60);
    assert_eq!(view.meta.num_points, 4);
    assert_eq!(view.meta.position_encoding, PositionEncoding::Float32);
}

#[test]
fn ordered_view_rearranges_both_buffers_alike() {
    let data = NodeData {
        position: vec![1, 1, 1, 2, 2, 2, 3, 3, 3],
        color: vec![10, 11, 12, 20, 21, 22, 30, 31, 32],
        meta: NodeMeta { num_points: 3, position_encoding: PositionEncoding::Uint8 },
    };
    let view = NodeView::new_ordered(data, &[2, 0, 1]);
    assert_eq!(view.position, vec![3, 3, 3, 1, 1, 1, 2, 2, 2]);
    assert_eq!(view.color, vec![30, 31, 32, 10, 11, 12, 20, 21, 22]);
    assert_eq!(view.used_memory_bytes, 18);
    assert_eq!(view.meta, NodeMeta { num_points: 3, position_encoding: PositionEncoding::Uint8 });
}

#[test]
fn view_keeps_the_points_of_every_encoding() {
    let encodings = [
        PositionEncoding::Uint8,
        PositionEncoding::Uint16,
        PositionEncoding::Float32,
        PositionEncoding::Float64,
    ];
    for encoding in encodings {
        let stride = encoding.bytes_per_point();
        let data = payload(50, encoding);
        let expected = sorted_points(&data.position, &data.color, stride);
        let view = NodeView::new(data);
        assert_eq!(view.position.len(), 50 * stride);
        assert_eq!(view.color.len(), 150);
        assert_eq!(view.used_memory_bytes, 50 * stride + 150);
        assert_eq!(sorted_points(&view.position, &view.color, stride), expected);
    }
}

#[test]
fn view_of_no_points_is_empty() {
    let view = NodeView::new(payload(0, PositionEncoding::Uint16));
    assert!(view.position.is_empty());
    assert!(view.color.is_empty());
    assert_eq!(view.used_memory_bytes, 0);
}

#[test]
fn shuffled_indices_name_every_point_once() {
    let mut order = shuffled_indices(200);
    assert_eq!(order.len(), 200);
    order.sort();
    let rising: Vec<usize> = (0..200).collect();
    assert_eq!(order, rising);
}

#[test]
fn shuffled_indices_of_nothing() {
    assert!(shuffled_indices(0).is_empty());
}

#[test]
fn shuffled_indices_leave_the_rising_order() {
    let rising: Vec<usize> = (0..1000).collect();
    assert_ne!(shuffled_indices(1000), rising);
}

#[test]
fn view_draws_the_points_in_another_order() {
    let data = payload(200, PositionEncoding::Float64);
    let position = data.position.clone();
    let view = NodeView::new(data);
    assert_ne!(view.position, position);
}
