use moonwave::mesh::{merge_meshes, place_indices};
use moonwave::SharedSimpleBufferAllocation;

#[test]
fn merged_meshes_move_indices_past_earlier_vertices() {
    let groups = vec![(vec![1u8, 2], vec![0u32, 1, 1]), (vec![3u8, 4, 5], vec![2u32, 0])];
    let (vertices, indices) = merge_meshes(&groups);
    assert_eq!(vertices, vec![1, 2, 3, 4, 5]);
    assert_eq!(indices, vec![0, 1, 1, 4, 2]);
}

#[test]
fn merging_nothing_gives_an_empty_mesh() {
    let groups: Vec<(Vec<u8>, Vec<u32>)> = Vec::new();
    let (vertices, indices) = merge_meshes(&groups);
    assert!(vertices.is_empty());
    assert!(indices.is_empty());
}

#[test]
fn placed_indices_move_by_their_chunk() {
    let chunks = vec![SharedSimpleBufferAllocation { index: 3 }, SharedSimpleBufferAllocation { index: 1 }];
    assert_eq!(place_indices(&vec![0, 5, 9], &chunks, 5), vec![15, 10, 14]);
}
