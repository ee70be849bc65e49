//! Resource-packing and draw-batching core of a 3D renderer: texture atlas
//! allocation, a shared texture cache, batched model drawing over a shared
//! index buffer, and an order-independent transparency compositor.

pub mod atlas;
pub mod bytes;
pub mod cache;
pub mod commands;
pub mod model;
pub mod render;
pub mod sun;
pub mod texture;
