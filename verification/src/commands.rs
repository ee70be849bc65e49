//! The GPU command stream.
//!
//! Every GPU-side effect of this engine is described as a plain
//! [`GpuCommand`] value.  The verified core builds command sequences with
//! exact contracts; the unverified shell around the library executes them
//! against a real graphics context (or records them, for tests).

use vstd::prelude::*;
use crate::model::Mat4;

verus! {

/// Width of the elements in the shared index buffer.
#[derive(Clone, Copy, Debug, PartialEq, Eq, Structural)]
pub enum IndexKind {
    /// 16-bit indices.
    Short,
    /// 32-bit indices.
    Wide,
}

/// A packed RGBA colour, one byte per channel.
#[derive(Clone, Copy, Debug, PartialEq, Eq, Structural)]
pub struct Rgba {
    pub r: u8,
    pub g: u8,
    pub b: u8,
    pub a: u8,
}

/// What a created texture object stores.
#[derive(Clone, Copy, Debug, PartialEq, Eq, Structural)]
pub enum TexKind {
    /// Plain RGBA colour.
    Color,
    /// Depth component.
    Depth,
    /// Multisampled RGBA colour.
    MultisampleColor,
    /// Multisampled depth component.
    MultisampleDepth,
}

/// One GPU-side operation.  Object names (`tex`, `fb`, `program`,
/// `array`, `buffer`) are handles issued by the verified core; the shell
/// maps them to real GPU object ids.
#[derive(Clone, Debug)]
pub enum GpuCommand {
    /// Set the viewport to `width x height` pixels.
    Viewport { width: u32, height: u32 },
    /// Create a texture object.
    CreateTexture { tex: u64, kind: TexKind, width: u32, height: u32 },
    /// Upload pixels into a rectangle of the atlas page `page`.
    TexSubImage { page: usize, x: u32, y: u32, width: u32, height: u32, bytes: Vec<u8> },
    /// Delete a texture object.
    DeleteTexture { tex: u64 },
    /// Create a framebuffer object.
    CreateFramebuffer { fb: u64 },
    /// Attach a colour texture to a framebuffer.
    AttachColor { fb: u64, tex: u64 },
    /// Attach a depth texture to a framebuffer.
    AttachDepth { fb: u64, tex: u64 },
    /// Delete a framebuffer object.
    DeleteFramebuffer { fb: u64 },
    /// Bind a framebuffer as the draw target.
    BindFramebuffer { fb: u64 },
    /// Bind the visible (default) framebuffer.
    BindDefaultFramebuffer,
    /// Clear colour and depth of the bound target.
    ClearColorDepth { color: Rgba },
    /// Clear only the colour of the bound target.
    ClearColor { color: Rgba },
    /// Compile the named shader pair into a program object.
    CreateProgram { program: u64, vert: String, frag: String },
    /// Select a program for the following draws.
    UseProgram { program: u64 },
    /// Upload the perspective matrix uniform.
    SetPerspective { program: u64, matrix: Mat4 },
    /// Upload the camera matrix uniform.
    SetCamera { program: u64, matrix: Mat4 },
    /// Upload one model's per-part transform array.
    SetModelMatrices { program: u64, matrices: Vec<Mat4> },
    /// Upload one model's per-part colour-multiplier array.
    SetModelColors { program: u64, colors: Vec<Rgba> },
    /// Point a sampler uniform of a program at a texture unit.
    SetSampler { program: u64, unit: i32 },
    /// Select the active texture unit.
    ActiveTexture { unit: u32 },
    /// Bind a texture object to the active unit.
    BindTexture { tex: u64 },
    /// Create a vertex array object.
    CreateVertexArray { array: u64 },
    /// Bind a vertex array object.
    BindVertexArray { array: u64 },
    /// Delete a vertex array object.
    DeleteVertexArray { array: u64 },
    /// Create a buffer object.
    CreateBuffer { buffer: u64 },
    /// Delete a buffer object.
    DeleteBuffer { buffer: u64 },
    /// Upload vertex data; `realloc` says whether the buffer's storage is
    /// re-allocated at the new size or updated in place.
    UploadVertexData { buffer: u64, bytes: Vec<u8>, realloc: bool },
    /// Re-allocate and fill the shared index buffer.
    UploadIndexData { buffer: u64, bytes: Vec<u8>, kind: IndexKind },
    /// One indexed draw of `count` elements from the shared index buffer.
    DrawElements { count: u32, kind: IndexKind },
    /// One non-indexed draw of `count` vertices.
    DrawArrays { count: u32 },
}

} // verus!
