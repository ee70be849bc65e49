//! The sky object: a single textured quad showing the current moon
//! phase, drawn through the built-in sky collection.

use vstd::prelude::*;
use crate::model::{find_model, wf_vertex, CollectionKey, Mat4, ModelKey, Vertex};
use crate::render::Renderer;
use crate::texture::Frac;

verus! {

/// Bit pattern of the 32-bit float `50.0`, the quad's half extent.
pub const SUN_SIZE_BITS: u32 = 0x4248_0000;

/// Bit pattern of the 32-bit float `-50.0`.
pub const NEG_SUN_SIZE_BITS: u32 = 0xc248_0000;

/// The moon quad and its model key.
#[derive(Debug)]
pub struct SunModel {
    /// The moon's model in the sky collection.
    pub moon: ModelKey,
}

impl SunModel {
    /// Creates the moon model in the renderer's sky collection.
    pub fn new(renderer: &mut Renderer) -> (s: SunModel)
        requires
            old(renderer).wf(),
            old(renderer).model.collections@[1].next_id < usize::MAX,
            old(renderer).model.next_handle <= 0xffff_ffff_ffff_0000,
            old(renderer).textures.version < u64::MAX,
        ensures
            final(renderer).wf(),
            s.moon == ModelKey(
                CollectionKey(1),
                old(renderer).model.collections@[1].next_id,
            ),
            find_model(
                final(renderer).model.collections@[1].models@,
                s.moon.1,
            ) matches Some(m) && m.count == 6,
    {
        SunModel { moon: SunModel::generate_moon(renderer) }
    }

    /// Points the moon's one part at a new transform for this frame.
    /// Nothing changes when the moon was already removed.
    pub fn tick(&mut self, renderer: &mut Renderer, transform: Mat4) -> (ok: bool)
        requires
            old(renderer).wf(),
        ensures
            final(renderer).wf(),
            *final(self) == *old(self),
            ok <==> ((old(self).moon.0).0 < old(renderer).model.collections@.len() && (
            find_model(
                old(renderer).model.collections@[(old(self).moon.0).0 as int].models@,
                old(self).moon.1,
            ) matches Some(m) && m.matrix@.len() > 0)),
    {
        renderer.model.set_model_matrix(self.moon, 0, transform)
    }

    /// Detaches the moon model and releases its GPU buffers.  Calling
    /// this twice is a caller error.
    pub fn remove(&mut self, renderer: &mut Renderer)
        requires
            old(renderer).wf(),
            (old(self).moon.0).0 < old(renderer).model.collections@.len(),
            find_model(
                old(renderer).model.collections@[(old(self).moon.0).0 as int].models@,
                old(self).moon.1,
            ) is Some,
        ensures
            final(renderer).wf(),
            find_model(
                final(renderer).model.collections@[(old(self).moon.0).0 as int].models@,
                old(self).moon.1,
            ) is None,
    {
        renderer.model.remove_model(self.moon);
    }

    /// Builds the one-quad moon model: the current phase cell of the
    /// moon-phase sheet (4 columns, 2 rows), mapped onto a square of 100
    /// units in the y-z plane.
    pub fn generate_moon(renderer: &mut Renderer) -> (key: ModelKey)
        requires
            old(renderer).wf(),
            old(renderer).model.collections@[1].next_id < usize::MAX,
            old(renderer).model.next_handle <= 0xffff_ffff_ffff_0000,
            old(renderer).textures.version < u64::MAX,
        ensures
            final(renderer).wf(),
            key == ModelKey(CollectionKey(1), old(renderer).model.collections@[1].next_id),
            find_model(final(renderer).model.collections@[1].models@, key.1) matches Some(m)
                && m.count == 6 && m.verts@.len() == 4,
    {
        let tex = renderer.textures.load("environment/moon_phases");
        let mpx = Frac { num: 0, den: 4 };
        let mpx_end = Frac { num: 1, den: 4 };
        let mpy = Frac { num: 0, den: 2 };
        let mpy_end = Frac { num: 1, den: 2 };
        let mut part: Vec<Vertex> = Vec::new();
        part.push(
            Vertex {
                x: 0,
                y: NEG_SUN_SIZE_BITS,
                z: NEG_SUN_SIZE_BITS,
                texture: tex.clone(),
                texture_x: mpx,
                texture_y: mpy_end,
                r: 255,
                g: 255,
                b: 255,
                a: 0,
                id: 0,
            },
        );
        part.push(
            Vertex {
                x: 0,
                y: SUN_SIZE_BITS,
                z: NEG_SUN_SIZE_BITS,
                texture: tex.clone(),
                texture_x: mpx,
                texture_y: mpy,
                r: 255,
                g: 255,
                b: 255,
                a: 0,
                id: 0,
            },
        );
        part.push(
            Vertex {
                x: 0,
                y: NEG_SUN_SIZE_BITS,
                z: SUN_SIZE_BITS,
                texture: tex.clone(),
                texture_x: mpx_end,
                texture_y: mpy_end,
                r: 255,
                g: 255,
                b: 255,
                a: 0,
                id: 0,
            },
        );
        part.push(
            Vertex {
                x: 0,
                y: SUN_SIZE_BITS,
                z: SUN_SIZE_BITS,
                texture: tex.clone(),
                texture_x: mpx_end,
                texture_y: mpy,
                r: 255,
                g: 255,
                b: 255,
                a: 0,
                id: 0,
            },
        );
        let ghost partg = part@;
        let mut parts: Vec<Vec<Vertex>> = Vec::new();
        parts.push(part);
        proof {
            assert(parts@.len() == 1);
            assert(parts@[0]@ == partg);
            assert(partg.len() == 4);
            assert(wf_vertex(partg[0]) && wf_vertex(partg[1]) && wf_vertex(partg[2]) && wf_vertex(
                partg[3],
            ));
            assert(crate::model::verts_of_parts(parts@, 0) =~= Seq::<Vertex>::empty());
            assert(crate::model::verts_of_parts(parts@, 1) == crate::model::verts_of_parts(
                parts@,
                0,
            ) + parts@[0]@);
            assert(crate::model::verts_of_parts(parts@, 1) =~= partg);
        }
        let ghost models0 = renderer.model.collections@[1].models@;
        let key = renderer.model.create_model(CollectionKey(1), parts);
        proof {
            crate::model::lemma_find_model_pushed(
                models0,
                renderer.model.collections@[1].models@,
                key.1,
            );
        }
        key
    }
}

} // verus!
