# moonwave (verified core)

The logic of the moonwave engine that does not need a GPU, proved with Verus:

- `src/shader_graph.rs`, `src/sub_graph.rs`, `src/graph_spec.rs`: the shader
  graph — nodes connected output to input, merging one graph into another,
  removal of passthrough nodes, and the plan of a build (which nodes each
  shader runs, what they share, the bind groups); `src/build_check.rs`
  decides whether a graph can be built.
- `src/shader_build.rs`, `src/glsl.rs`, `src/shader_nodes.rs`,
  `src/shader_type.rs`, `src/text.rs`: the GLSL text a build and each node
  writes.
- `src/memory.rs`: the chunk allocators behind shared vertex and index
  buffers, and the generations of a mesh combiner.
- `src/mesh.rs`: merging meshes and placing a mesh's indices into the vertex
  chunks it was given.
- `src/frame_graph.rs`, `src/frame_run.rs`: the render frame graph, the
  order its levels run, and where each input reads its value while they run.
- `src/material.rs`: the shader graph of the physically based shading node.
- `src/frame.rs`, `src/scene.rs`, `src/design.rs`, `src/util.rs`: small
  engine helpers.

`app/` holds what Verus does not take: node code generators behind a trait
object, error types with messages, and float geometry.
