//! Vertex attribute vocabulary of the debug-path renderer.
//!
//! The GPU pipeline itself (shader programs, tessellations, render gates) is
//! an external collaborator and out of this core's scope; only the semantic
//! vocabulary is modeled, as the attribute names and indices the shader
//! interface is built from.

use vstd::prelude::*;

verus! {

/// The vertex attributes a path vertex carries: a 2D position and an RGBA
/// color.
#[derive(Clone, Copy, Debug, Eq, Hash, PartialEq, Structural)]
pub enum VertexSemantics {
    Position,
    Color,
}

impl VertexSemantics {
    /// The attribute's index in the vertex layout.
    pub fn index(&self) -> (r: usize)
        ensures
            r == (match *self {
                VertexSemantics::Position => 0usize,
                VertexSemantics::Color => 1usize,
            }),
    {
        match *self {
            VertexSemantics::Position => 0,
            VertexSemantics::Color => 1,
        }
    }

    /// The attribute's name in the shader source.
    pub fn name(&self) -> (r: &'static str)
        ensures
            *self is Position ==> r@ == "position"@,
            *self is Color ==> r@ == "color"@,
    {
        match *self {
            VertexSemantics::Position => "position",
            VertexSemantics::Color => "color",
        }
    }
}

} // verus!
