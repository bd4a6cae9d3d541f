//! Plain scene and layout types: spaces and optimizations of transforms,
//! tags, alignment, and the PBR node's input slots.
use vstd::prelude::*;

verus! {

/// Defines the space the model should be placed in.
#[derive(PartialEq, Eq, Structural)]
pub enum ModelSpace {
    /// Overall world space.
    World,
    /// Relative to its direct parent.
    RelativeDirect,
    /// Relative to its next parent that also has a model.
    RelativeNext,
}

/// Defines the space the transform should be placed in.
#[derive(PartialEq, Eq, Structural, Debug)]
pub enum TransformSpace {
    /// Overall world space.
    World,
    /// Relative to its direct parent.
    RelativeDirect,
    /// Relative to its next parent that also has a transform.
    RelativeNext,
}

/// How often a transform changes.
#[derive(Debug)]
pub enum TransformOptimization {
    /// Won't change after creation at all.
    Static,
    /// Changes can happen every single frame.
    Dynamic,
}

/// Tags the camera actor that is the scene's main camera.
pub struct MainCameraTag;

/// Horizontal alignment of a laid out component.
pub enum Alignment {
    Left,
    Center,
    Right,
}

/// How a component keeps its rendered children.
#[derive(Debug)]
pub enum RenderStorageEntry {
    SingleTyped,
    VecTyped,
}

/// A fixed-size array laid out for a uniform buffer.
pub struct Array<T, const N: usize> {
    pub elements: [T; N],
}

/// The physically based shading node; its inputs are listed below.
pub struct PBRShaderNode {}

impl PBRShaderNode {
    pub const INPUT_POSITION: usize = 0;
    pub const INPUT_VNORMAL: usize = 1;
    pub const INPUT_VTANGENT: usize = 2;
    pub const INPUT_VBITANGENT: usize = 3;
    pub const INPUT_BASE_COLOR: usize = 4;
    pub const INPUT_METALLIC: usize = 5;
    pub const INPUT_ROUGHNESS: usize = 6;
    pub const INPUT_NORMAL: usize = 7;

    pub fn new() -> (r: PBRShaderNode)
        ensures
            r == (PBRShaderNode {}),
    {
        PBRShaderNode {}
    }
}

} // verus!
