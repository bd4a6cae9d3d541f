//! Verified core of the moonwave engine: the shader graph and its node
//! library, the chunk allocators for shared buffers, and small engine
//! helpers.

mod arena;
pub mod build_check;
pub mod design;
pub mod frame;
pub mod frame_graph;
pub mod frame_run;
mod frame_store;
pub mod glsl;
pub mod graph_spec;
pub mod memory;
pub mod material;
pub mod mesh;
pub mod scene;
pub mod shader_build;
pub mod shader_graph;
pub mod shader_nodes;
pub mod shader_type;
pub mod sub_graph;
pub mod text;
pub mod util;

pub use arena::NodeIndex;
pub use design::{MyActor, MyComponent};
pub use frame::{Extension, ExtensionHost, FrameElapsedTime, SystemStage, TemporalClone, Timer};
pub use memory::{
    ChunkReservation, ClusterKey, GenerationSpace, SharedAreaBuffer, SharedAreaBufferAllocation,
    SharedAreaBufferOptions, SharedSimpleBuffer, SharedSimpleBufferAllocation,
};
pub use scene::{
    Alignment, Array, MainCameraTag, ModelSpace, PBRShaderNode, RenderStorageEntry, TransformOptimization,
    TransformSpace,
};
pub use shader_build::{BuiltShaderBindGroup, BuiltShaderGraph, BuiltTexture, BuiltUniform, ShaderBuildPlan};
pub use shader_graph::{ColorOutput, GraphConnectError, Input, ShaderGraph, MAX_INPUT_OUTPUTS_PER_NODE, MAX_NODES};
pub use shader_nodes::{
    ArrayAccess, ColorOutputNode, Construct, ConvertHomgenous, Deconstruct, InputPassthroughNode, MemberAccess,
    Multiply, TextureNode, TextureSampleNode, UniformNode, Vector3Upgrade, VertexAttributesNode,
    VertexShaderOutputNode,
};
pub use shader_type::{ShaderType, VertexAttribute, VertexAttributeFormat, VertexBuffer};
pub use util::invert_option_result;
