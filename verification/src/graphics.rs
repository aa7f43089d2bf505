//! Rendering vocabulary that carries no GPU object: resource markers, the
//! render graph's passes, material blending, and the checks a mesh must
//! pass before it is registered.
use vstd::prelude::*;
use crate::text::{decimal, decimal_string};

verus! {

/// Marks handles that name textures.
pub struct TextureMarker;

/// Marks handles that name meshes.
pub struct MeshMarker;

/// Marks handles that name shaders.
pub struct ShaderMarker;

/// Marks handles that name materials.
pub struct MaterialMarker;

/// A node in the render graph.
#[derive(Debug, Clone, Default)]
pub struct RenderPass {
    pub name: &'static str,
}

/// The render passes of one frame.
#[derive(Debug, Clone, Default)]
pub struct RenderGraph {
    pub passes: Vec<RenderPass>,
}

/// How a material composites with what is already drawn.
#[derive(Debug, Clone, Copy, PartialEq, Eq, Structural)]
pub enum BlendMode {
    Opaque,
    AlphaBlend,
}

impl Default for BlendMode {
    fn default() -> (b: Self)
        ensures
            b == BlendMode::Opaque,
    {
        BlendMode::Opaque
    }
}

/// Why a mesh was refused by the registry.
#[derive(Debug, Clone, Copy, PartialEq, Eq, Structural)]
pub enum MeshRegistryError {
    /// More vertices than a `u16` index can address.
    TooManyVertices { count: usize },
    /// The index count is not a multiple of 3: not a triangle list.
    NotATriangleList { index_count: usize },
    /// Not exactly one UV per vertex.
    UvCountMismatch { positions: usize, uvs: usize },
    /// Not exactly one normal per vertex.
    NormalCountMismatch { positions: usize, normals: usize },
}

/// The registry's verdict on a mesh with these element counts: the first
/// failed check in order vertex count, triangle list, UVs, normals.
pub open spec fn mesh_check(positions: usize, indices: usize, uvs: usize, normals: usize) -> Result<
    (),
    MeshRegistryError,
> {
    if positions > 65535 {
        Err(MeshRegistryError::TooManyVertices { count: positions })
    } else if indices % 3 != 0 {
        Err(MeshRegistryError::NotATriangleList { index_count: indices })
    } else if uvs != positions {
        Err(MeshRegistryError::UvCountMismatch { positions, uvs })
    } else if normals != positions {
        Err(MeshRegistryError::NormalCountMismatch { positions, normals })
    } else {
        Ok(())
    }
}

/// Checks a mesh's element counts before registration.
pub fn check_mesh(positions: usize, indices: usize, uvs: usize, normals: usize) -> (r: Result<(), MeshRegistryError>)
    ensures
        r == mesh_check(positions, indices, uvs, normals),
{
    if positions > 65535 {
        Err(MeshRegistryError::TooManyVertices { count: positions })
    } else if indices % 3 != 0 {
        Err(MeshRegistryError::NotATriangleList { index_count: indices })
    } else if uvs != positions {
        Err(MeshRegistryError::UvCountMismatch { positions, uvs })
    } else if normals != positions {
        Err(MeshRegistryError::NormalCountMismatch { positions, normals })
    } else {
        Ok(())
    }
}

fn decimal_of(n: usize) -> (s: String)
    ensures
        s@ == decimal(n as nat),
{
    decimal_string(n as u64)
}

impl MeshRegistryError {
    /// The error as text.
    pub fn message(&self) -> (r: String)
        ensures
            r@ == match *self {
                MeshRegistryError::TooManyVertices { count } => "mesh has "@ + decimal(count as nat)
                    + " vertices, beyond u16 index range (65535)"@,
                MeshRegistryError::NotATriangleList { index_count } => "index count "@ + decimal(
                    index_count as nat,
                ) + " is not a multiple of 3"@,
                MeshRegistryError::UvCountMismatch { positions, uvs } => decimal(positions as nat)
                    + " positions but "@ + decimal(uvs as nat) + " uvs — must match"@,
                MeshRegistryError::NormalCountMismatch { positions, normals } => decimal(
                    positions as nat,
                ) + " positions but "@ + decimal(normals as nat) + " normals — must match"@,
            },
    {
        match *self {
            MeshRegistryError::TooManyVertices { count } => {
                let mut m = "mesh has ".to_owned();
                m.append(decimal_of(count).as_str());
                m.append(" vertices, beyond u16 index range (65535)");
                m
            },
            MeshRegistryError::NotATriangleList { index_count } => {
                let mut m = "index count ".to_owned();
                m.append(decimal_of(index_count).as_str());
                m.append(" is not a multiple of 3");
                m
            },
            MeshRegistryError::UvCountMismatch { positions, uvs } => {
                let mut m = decimal_of(positions);
                m.append(" positions but ");
                m.append(decimal_of(uvs).as_str());
                m.append(" uvs — must match");
                m
            },
            MeshRegistryError::NormalCountMismatch { positions, normals } => {
                let mut m = decimal_of(positions);
                m.append(" positions but ");
                m.append(decimal_of(normals).as_str());
                m.append(" normals — must match");
                m
            },
        }
    }
}

} // verus!
