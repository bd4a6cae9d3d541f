use moonwave::frame_graph::TraversedGraphNode;
use moonwave::frame_run::OutputPositions;
use moonwave::NodeIndex;

fn index(slot: usize) -> NodeIndex {
    NodeIndex { slot, generation: 0 }
}

fn node(slot: usize) -> TraversedGraphNode {
    TraversedGraphNode { index: index(slot), inputs: [None; 16] }
}

#[test]
fn a_level_records_each_node_at_its_position() {
    let mut positions = OutputPositions::new();
    assert_eq!(positions.get(index(3)), None);
    positions.record_level(&vec![node(3), node(5)]);
    assert_eq!(positions.get(index(3)), Some(0));
    assert_eq!(positions.get(index(5)), Some(1));
    positions.record_level(&vec![node(5)]);
    assert_eq!(positions.get(index(5)), Some(0));
    assert_eq!(positions.get(index(3)), Some(0));
}

#[test]
fn an_input_reads_the_slot_of_its_node_in_the_level_it_names() {
    let mut positions = OutputPositions::new();
    positions.record_level(&vec![node(3), node(5)]);
    let mut reader = node(7);
    reader.inputs[0] = Some((1, 2, index(5)));
    reader.inputs[4] = Some((2, 0, index(3)));
    positions.record_level(&vec![reader]);
    let sources = positions.input_sources(&reader, 0, 2);
    assert_eq!(sources.len(), 16);
    assert_eq!(sources[0], Some((1, 18)));
    assert_eq!(sources[4], Some((0, 0)));
    assert_eq!(sources[1], None);
    assert_eq!(sources[15], None);
}

#[test]
fn neighbouring_nodes_never_share_an_output_slot() {
    let mut positions = OutputPositions::new();
    positions.record_level(&vec![node(1), node(2)]);
    let mut reader = node(9);
    reader.inputs[0] = Some((1, 15, index(1)));
    reader.inputs[1] = Some((1, 0, index(2)));
    let sources = positions.input_sources(&reader, 0, 1);
    assert_eq!(sources[0], Some((0, 15)));
    assert_eq!(sources[1], Some((0, 16)));
}
