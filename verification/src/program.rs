//! Which shader program and which vertex layout go with a position encoding.

use crate::payload::PositionEncoding;
use vstd::prelude::*;

verus! {

/// A linked shader program for drawing nodes: its name at the graphics API
/// and the locations of its uniforms.
#[derive(Clone, Copy, Debug, PartialEq, Eq, Structural)]
pub struct NodeProgram {
    pub program_id: u32,
    pub u_world_to_gl: i32,
    pub u_edge_length: i32,
    pub u_size: i32,
    pub u_gamma: i32,
    pub u_min: i32,
}

/// The type of one coordinate in a position buffer.
#[derive(Clone, Copy, Debug, PartialEq, Eq, Structural)]
pub enum ComponentType {
    UnsignedByte,
    UnsignedShort,
    Float,
    Double,
}

/// How the position buffer of a view is laid out for the vertex shader.
#[derive(Clone, Copy, Debug, PartialEq, Eq, Structural)]
pub struct PositionAttribute {
    pub component_type: ComponentType,
    /// Integer coordinates are scaled to the unit interval.
    pub normalized: bool,
    /// The shader reads the coordinates in double precision.
    pub double_precision: bool,
}

impl PositionEncoding {
    /// The layout of a position buffer with this encoding.
    pub open spec fn attribute(self) -> PositionAttribute {
        match self {
            PositionEncoding::Uint8 => PositionAttribute {
                component_type: ComponentType::UnsignedByte,
                normalized: true,
                double_precision: false,
            },
            PositionEncoding::Uint16 => PositionAttribute {
                component_type: ComponentType::UnsignedShort,
                normalized: true,
                double_precision: false,
            },
            PositionEncoding::Float32 => PositionAttribute {
                component_type: ComponentType::Float,
                normalized: false,
                double_precision: false,
            },
            PositionEncoding::Float64 => PositionAttribute {
                component_type: ComponentType::Double,
                normalized: false,
                double_precision: true,
            },
        }
    }

    /// Computes `attribute`.
    pub fn position_attribute(self) -> (layout: PositionAttribute)
        ensures
            layout == self.attribute(),
    {
        let (component_type, normalized) = match self {
            PositionEncoding::Uint8 => (ComponentType::UnsignedByte, true),
            PositionEncoding::Uint16 => (ComponentType::UnsignedShort, true),
            PositionEncoding::Float32 => (ComponentType::Float, false),
            PositionEncoding::Float64 => (ComponentType::Double, false),
        };
        let double_precision = match self {
            PositionEncoding::Float64 => true,
            _ => false,
        };
        PositionAttribute { component_type, normalized, double_precision }
    }
}

/// The two programs that draw nodes: one reads positions in single
/// precision, the other in double precision.
#[derive(Clone, Copy, Debug, PartialEq, Eq, Structural)]
pub struct NodeDrawer {
    pub program_f32: NodeProgram,
    pub program_f64: NodeProgram,
}

impl NodeDrawer {
    /// Keeps the two programs.
    pub fn new(program_f32: NodeProgram, program_f64: NodeProgram) -> (drawer: Self)
        ensures
            drawer.program_f32 == program_f32,
            drawer.program_f64 == program_f64,
    {
        NodeDrawer { program_f32, program_f64 }
    }

    /// The program that draws views with the given encoding: the double
    /// precision program for `Float64`, the single precision program for
    /// every other encoding.
    pub fn program(&self, position_encoding: &PositionEncoding) -> (node_program: &NodeProgram)
        ensures
            *node_program == if *position_encoding == PositionEncoding::Float64 {
                self.program_f64
            } else {
                self.program_f32
            },
    {
        if let PositionEncoding::Float64 = position_encoding {
            &self.program_f64
        } else {
            &self.program_f32
        }
    }
}

} // verus!
