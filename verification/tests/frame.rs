use moonwave::frame_graph::{FrameGraph, GraphConnectError};
use moonwave::{SystemStage, TemporalClone, Timer};

#[test]
fn timer_marks_itself_dirty_once_the_period_passed() {
    let mut t = Timer { every_micros: 100, elapsed: 0, dirty: false };
    t.tick(60);
    assert!(!t.dirty);
    assert_eq!(t.elapsed, 60);
    t.tick(40);
    assert!(t.dirty);
    assert_eq!(t.elapsed, 0);
    assert_eq!(t.every_micros, 100);
}

#[test]
fn stage_numbers() {
    assert_eq!(SystemStage::Cold.order_num(), 0);
    assert_eq!(SystemStage::Application(0).order_num(), 1);
    assert_eq!(SystemStage::Application(255).order_num(), 256);
    assert_eq!(SystemStage::RenderingPreperations.order_num(), 257);
    assert_eq!(SystemStage::Rendering.order_num(), 258);
}

#[test]
fn temporal_clone_hands_out_its_value() {
    let c = TemporalClone::new(41u32);
    assert_eq!(*c.take(), 41);
}

#[test]
fn frame_graph_connect_refusals() {
    let mut g = FrameGraph::new();
    let end = g.get_end_node();
    let a = g.add_node("a");
    assert_eq!(g.connect(a, 0, end, 16), Err(GraphConnectError::MaximumInputsReached));
    assert_eq!(g.connect(a, 16, end, 0), Err(GraphConnectError::MaximumOutputsReached));
    assert_eq!(g.connect(a, 0, end, 0), Ok(()));
    assert_eq!(g.connect(a, 0, end, 0), Err(GraphConnectError::AlreadyConnected));
}

#[test]
fn frame_graph_levels_run_deepest_first() {
    let mut g = FrameGraph::new();
    let end = g.get_end_node();
    let a = g.add_node("a");
    let b = g.add_node("b");
    g.connect(a, 0, b, 0).unwrap();
    g.connect(b, 0, end, 0).unwrap();
    g.traverse();
    let levels = g.execution_levels();
    assert_eq!(levels.len(), 3);
    assert_eq!(levels[0].0, 2);
    assert_eq!(levels[0].1[0].index, a);
    assert_eq!(levels[1].0, 1);
    assert_eq!(levels[1].1[0].index, b);
    assert_eq!(levels[2].0, 0);
    assert_eq!(levels[2].1[0].index, end);
}

#[test]
fn frame_graph_level_lists_nodes_by_index() {
    let mut g = FrameGraph::new();
    let end = g.get_end_node();
    let low = g.add_node("low");
    let high = g.add_node("high");
    g.connect(high, 0, end, 0).unwrap();
    g.connect(low, 0, end, 1).unwrap();
    g.traverse();
    let levels = g.execution_levels();
    assert_eq!(levels.len(), 2);
    assert_eq!(levels[0].0, 1);
    assert_eq!(levels[0].1.len(), 2);
    assert_eq!(levels[0].1[0].index, low);
    assert_eq!(levels[0].1[1].index, high);
}


#[test]
fn frame_graph_reset_retires_every_old_node() {
    let mut g = FrameGraph::new();
    let old_end = g.get_end_node();
    let a = g.add_node("a");
    g.connect(a, 0, old_end, 0).unwrap();
    g.reset();
    let end = g.get_end_node();
    assert_ne!(end, old_end);
    assert_eq!(g.connect(end, 0, a, 0), Err(GraphConnectError::InvalidDestination));
    assert_eq!(g.connect(a, 0, old_end, 0), Err(GraphConnectError::InvalidDestination));
    assert_eq!(g.connect(a, 0, end, 0), Ok(()));
}
