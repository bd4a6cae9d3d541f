use moonwave::memory::{reserve_in_generations, reserve_or_add_generation};
use moonwave::{
    ClusterKey, GenerationSpace, SharedAreaBuffer, SharedAreaBufferAllocation, SharedAreaBufferOptions,
    SharedSimpleBuffer,
};

fn key(x: usize) -> ClusterKey {
    ClusterKey { x, y: 0, z: 0 }
}

#[test]
fn simple_buffer_hands_out_chunks_in_order_and_takes_them_back_last() {
    let mut b = SharedSimpleBuffer::new(3);
    let first = b.allocate().unwrap();
    let second = b.allocate().unwrap();
    assert_eq!(first.index, 0);
    assert_eq!(second.index, 1);
    b.free(first);
    assert_eq!(b.allocate().unwrap().index, 2);
    assert_eq!(b.allocate().unwrap().index, 0);
    assert!(b.allocate().is_none());
}

#[test]
fn simple_buffer_without_chunks_refuses() {
    let mut b = SharedSimpleBuffer::new(0);
    assert!(b.allocate().is_none());
}

#[test]
fn best_chunk_is_the_second_half_of_the_longest_free_run() {
    let buffer = SharedAreaBuffer::new();
    assert_eq!(buffer.find_best_chunk(), Some((64, 64)));
}

#[test]
fn allocation_takes_a_cluster_in_the_best_run() {
    let mut buffer = SharedAreaBuffer::new();
    let a = buffer.allocate(10, key(1)).unwrap();
    assert_eq!(a.chunk_start, 64);
    assert_eq!(a.chunk_length, 10);
    assert_eq!(a.cluster_pos, key(1));
    assert_eq!(a.cluster_index_start, 0);
    assert_eq!(buffer.find_best_chunk(), Some((32, 32)));
    let b = buffer.allocate(4, key(2)).unwrap();
    assert_eq!(b.chunk_start, 32);
    assert_eq!(b.chunk_length, 4);
}

#[test]
fn allocation_larger_than_the_best_run_is_refused() {
    let mut buffer = SharedAreaBuffer::new();
    assert!(buffer.allocate(65, key(1)).is_none());
    assert_eq!(buffer.find_best_chunk(), Some((64, 64)));
}

#[test]
fn a_buffer_of_one_chunk_has_no_run() {
    let options = SharedAreaBufferOptions { cluster_chunk_size: 8, total_chunks: 1, chunk_size: 1024, max_space_between: 2 };
    let mut buffer = SharedAreaBuffer::with_options(options);
    assert_eq!(buffer.find_best_chunk(), None);
    assert!(buffer.allocate(1, key(0)).is_none());
}

#[test]
fn default_options() {
    let o = SharedAreaBufferOptions::default();
    assert_eq!(o.max_space_between, 2);
    assert_eq!(o.cluster_chunk_size, 8);
    assert_eq!(o.total_chunks, 128);
    assert_eq!(o.chunk_size, 1024);
}

#[test]
fn shortest_sequence_cases() {
    assert_eq!(SharedAreaBuffer::find_shortest_increasing_sequence(&[], 1), None);
    assert_eq!(SharedAreaBuffer::find_shortest_increasing_sequence(&[5], 1), None);
    assert_eq!(SharedAreaBuffer::find_shortest_increasing_sequence(&[3, 1, 7], 1), Some(2));
    let r = SharedAreaBuffer::find_shortest_increasing_sequence(&[3, 1, 7], 2);
    assert!(r == Some(2) || r == Some(6));
}

#[test]
fn generation_reserves_vertex_and_index_chunks() {
    let mut g = GenerationSpace::new(4, 2048);
    let r = g.reserve(2, 100, key(3)).unwrap();
    assert_eq!(r.vb.len(), 2);
    assert_eq!(r.vb[0].index, 0);
    assert_eq!(r.vb[1].index, 1);
    assert_eq!(r.ib.chunk_start, 1024);
    assert_eq!(r.ib.chunk_length, 100);
    assert!(!g.was_full);
}

#[test]
fn generation_without_room_is_marked_full() {
    let mut g = GenerationSpace::new(1, 2048);
    assert!(g.reserve(2, 10, key(0)).is_none());
    assert!(g.was_full);
    assert!(g.reserve(0, 0, key(0)).is_none());
}

#[test]
fn failed_index_reservation_gives_vertex_chunks_back() {
    let mut g = GenerationSpace::new(3, 1);
    assert!(g.reserve(2, 10, key(0)).is_none());
    assert!(g.was_full);
    assert_eq!(g.vertex_manager.allocate().unwrap().index, 2);
    assert_eq!(g.vertex_manager.allocate().unwrap().index, 0);
}

#[test]
fn reservation_goes_to_the_first_generation_with_room() {
    let mut gens = vec![GenerationSpace::new(1, 2048), GenerationSpace::new(8, 2048)];
    let (g, r) = reserve_in_generations(&mut gens, 2, 10, key(0)).unwrap();
    assert_eq!(g, 1);
    assert_eq!(r.vb.len(), 2);
    assert!(gens[0].was_full);
    assert!(!gens[1].was_full);
}

#[test]
fn a_new_generation_is_added_when_none_has_room() {
    let mut gens = vec![GenerationSpace::new(1, 2048)];
    let (g, r) = reserve_or_add_generation(&mut gens, 8, 2048, 2, 10, key(0)).unwrap();
    assert_eq!(g, 1);
    assert_eq!(gens.len(), 2);
    assert!(gens[0].was_full);
    assert_eq!(r.vb.len(), 2);
    assert_eq!(r.ib.chunk_start, 1024);
    let (g2, _) = reserve_or_add_generation(&mut gens, 8, 2048, 1, 10, key(0)).unwrap();
    assert_eq!(g2, 1);
    assert_eq!(gens.len(), 2);
}

#[test]
fn freeing_a_whole_allocation_releases_its_cluster() {
    let mut buffer = SharedAreaBuffer::new();
    let a = buffer.allocate(10, key(1)).unwrap();
    assert!(buffer.can_free(&a));
    buffer.free(a);
    assert_eq!(buffer.find_best_chunk(), Some((64, 64)));
    assert!(!buffer.can_free(&a));
    let again = buffer.allocate(10, key(1)).unwrap();
    assert_eq!(again.chunk_start, 64);
}

#[test]
fn freeing_the_handed_out_part_of_a_larger_cluster_releases_it() {
    let mut buffer = SharedAreaBuffer::new();
    let a = buffer.allocate(4, key(1)).unwrap();
    assert_eq!(buffer.find_best_chunk(), Some((32, 32)));
    buffer.free(a);
    assert_eq!(buffer.find_best_chunk(), Some((64, 64)));
}

#[test]
fn freeing_part_of_a_cluster_keeps_its_chunks_reserved() {
    let mut buffer = SharedAreaBuffer::new();
    let a = buffer.allocate(4, key(1)).unwrap();
    let part = SharedAreaBufferAllocation { chunk_length: 2, ..a };
    buffer.free(part);
    assert_eq!(buffer.find_best_chunk(), Some((32, 32)));
    assert!(buffer.can_free(&a));
}

#[test]
fn an_allocation_of_another_region_cannot_be_freed() {
    let mut buffer = SharedAreaBuffer::new();
    let a = buffer.allocate(4, key(1)).unwrap();
    let elsewhere = SharedAreaBufferAllocation { cluster_pos: key(2), ..a };
    assert!(!buffer.can_free(&elsewhere));
    let outside = SharedAreaBufferAllocation { chunk_start: 10, ..a };
    assert!(!buffer.can_free(&outside));
}

#[test]
fn removing_a_reservation_gives_everything_back() {
    let mut g = GenerationSpace::new(4, 2048);
    let r = g.reserve(2, 100, key(3)).unwrap();
    g.was_full = true;
    g.remove(r);
    assert!(!g.was_full);
    assert_eq!(g.index_manager.find_best_chunk(), Some((1024, 1024)));
    assert_eq!(g.vertex_manager.allocate().unwrap().index, 2);
    assert_eq!(g.vertex_manager.allocate().unwrap().index, 3);
    assert_eq!(g.vertex_manager.allocate().unwrap().index, 0);
    assert_eq!(g.vertex_manager.allocate().unwrap().index, 1);
}
