//! Per-frame orchestration and the transparency compositor.
//!
//! The [`Renderer`] owns the model manager and the texture cache and
//! emits one frame as a command stream: pending uploads first, then the
//! opaque pass into a multisampled off-screen target, then the
//! transparent pass into the accumulation target, then the resolve draw
//! that composites both to the visible framebuffer.  Both off-screen
//! framebuffers are torn down and rebuilt, with fresh handles, whenever
//! the output resolution changes.

use vstd::prelude::*;
use vstd::set::Set;
use crate::bytes::{put_u32_le, u32_le_bytes};
use crate::cache::TextureCache;
use crate::commands::{GpuCommand, Rgba, TexKind};
use crate::model::{cols_cmds_len, is_draw_cmds, Manager, Mat4};

verus! {

/// Bit pattern of the 32-bit float `1.0`.
pub const POS_ONE_BITS: u32 = 0x3f80_0000;

/// Bit pattern of the 32-bit float `-1.0`.
pub const NEG_ONE_BITS: u32 = 0xbf80_0000;

/// The two compositor framebuffers and their attachments, for one output
/// resolution.
#[derive(Clone, Copy, Debug)]
pub struct TransInfo {
    /// Multisampled opaque target.
    pub main: u64,
    /// Colour attachment of `main`.
    pub fb_color: u64,
    /// Depth attachment of `main`.
    pub fb_depth: u64,
    /// Accumulation/revealage target.
    pub trans: u64,
    /// Depth attachment of `trans`.
    pub trans_depth: u64,
    /// Vertex array of the fullscreen resolve quad.
    pub array: u64,
    /// Vertex buffer of the fullscreen resolve quad.
    pub buffer: u64,
    /// Output resolution these objects were built for.
    pub width: u32,
    pub height: u32,
}

impl TransInfo {
    /// All GPU object handles this target set owns.
    pub open spec fn handles(self) -> Set<u64> {
        set![self.main, self.fb_color, self.fb_depth, self.trans, self.trans_depth, self.array, self.buffer]
    }

    /// Every handle was issued below `h`.
    pub open spec fn handles_below(self, h: u64) -> bool {
        &&& self.main < h
        &&& self.fb_color < h
        &&& self.fb_depth < h
        &&& self.trans < h
        &&& self.trans_depth < h
        &&& self.array < h
        &&& self.buffer < h
    }

    /// Every handle was issued at or above `h`.
    pub open spec fn handles_at_or_above(self, h: u64) -> bool {
        &&& self.main >= h
        &&& self.fb_color >= h
        &&& self.fb_depth >= h
        &&& self.trans >= h
        &&& self.trans_depth >= h
        &&& self.array >= h
        &&& self.buffer >= h
    }
}

/// Framebuffers recreated after a resize share no handle with the ones
/// they replace: a stale attachment can never be bound again by name.
pub proof fn lemma_recreated_handles_distinct(told: TransInfo, tnew: TransInfo, h: u64)
    requires
        told.handles_below(h),
        tnew.handles_at_or_above(h),
    ensures
        told.handles().disjoint(tnew.handles()),
{
    assert forall|x: u64| told.handles().contains(x) implies !tnew.handles().contains(x) by {
        assert(x < h);
    }
}

/// The vertex bytes of the fullscreen resolve quad: two triangles over
/// the clip-space square, twelve 32-bit float coordinates.
pub open spec fn resolve_quad_bytes() -> Seq<u8> {
    u32_le_bytes(NEG_ONE_BITS) + u32_le_bytes(POS_ONE_BITS) + u32_le_bytes(POS_ONE_BITS)
        + u32_le_bytes(NEG_ONE_BITS) + u32_le_bytes(NEG_ONE_BITS) + u32_le_bytes(NEG_ONE_BITS)
        + u32_le_bytes(POS_ONE_BITS) + u32_le_bytes(POS_ONE_BITS) + u32_le_bytes(POS_ONE_BITS)
        + u32_le_bytes(NEG_ONE_BITS) + u32_le_bytes(NEG_ONE_BITS) + u32_le_bytes(POS_ONE_BITS)
}

/// The teardown commands of one target set: every object is deleted.
pub open spec fn teardown_cmds(t: TransInfo) -> Seq<GpuCommand> {
    seq![
        GpuCommand::DeleteFramebuffer { fb: t.main },
        GpuCommand::DeleteTexture { tex: t.fb_color },
        GpuCommand::DeleteTexture { tex: t.fb_depth },
        GpuCommand::DeleteFramebuffer { fb: t.trans },
        GpuCommand::DeleteTexture { tex: t.trans_depth },
        GpuCommand::DeleteVertexArray { array: t.array },
        GpuCommand::DeleteBuffer { buffer: t.buffer },
    ]
}

/// The creation commands of one target set, except the final quad-buffer
/// upload (which carries the vertex bytes).
pub open spec fn setup_cmds(t: TransInfo, program: u64) -> Seq<GpuCommand> {
    seq![
        GpuCommand::CreateFramebuffer { fb: t.trans },
        GpuCommand::CreateTexture {
            tex: t.trans_depth,
            kind: TexKind::Depth,
            width: t.width,
            height: t.height,
        },
        GpuCommand::AttachDepth { fb: t.trans, tex: t.trans_depth },
        GpuCommand::CreateFramebuffer { fb: t.main },
        GpuCommand::CreateTexture {
            tex: t.fb_color,
            kind: TexKind::MultisampleColor,
            width: t.width,
            height: t.height,
        },
        GpuCommand::AttachColor { fb: t.main, tex: t.fb_color },
        GpuCommand::CreateTexture {
            tex: t.fb_depth,
            kind: TexKind::MultisampleDepth,
            width: t.width,
            height: t.height,
        },
        GpuCommand::AttachDepth { fb: t.main, tex: t.fb_depth },
        GpuCommand::UseProgram { program },
        GpuCommand::CreateVertexArray { array: t.array },
        GpuCommand::BindVertexArray { array: t.array },
        GpuCommand::CreateBuffer { buffer: t.buffer },
    ]
}

/// The resolve pass: bind the opaque colour as input and composite it
/// with the accumulation target onto the visible framebuffer.
pub open spec fn resolve_cmds(t: TransInfo, program: u64) -> Seq<GpuCommand> {
    seq![
        GpuCommand::BindDefaultFramebuffer,
        GpuCommand::ActiveTexture { unit: 0 },
        GpuCommand::BindTexture { tex: t.fb_color },
        GpuCommand::UseProgram { program },
        GpuCommand::SetSampler { program, unit: 0 },
        GpuCommand::BindVertexArray { array: t.array },
        GpuCommand::DrawArrays { count: 6 },
    ]
}

/// Orchestrates one frame: texture uploads, opaque pass, transparent
/// pass, resolve.
pub struct Renderer {
    /// The model batch manager.
    pub model: Manager,
    /// The shared texture cache.
    pub textures: TextureCache,
    /// Handle of the compositor's resolve program.
    pub trans_program: u64,
    /// Current perspective matrix (float bit patterns).
    pub perspective_matrix: Mat4,
    /// Current camera matrix (float bit patterns).
    pub camera_matrix: Mat4,
    /// Current output resolution.
    pub width: u32,
    pub height: u32,
    /// The compositor targets, once a resolution is known.
    pub trans: Option<TransInfo>,
    /// Next GPU object handle the renderer issues.
    pub next_handle: u64,
    /// Commands built up outside the frame loop, emitted by `tick`.
    pub pending: Vec<GpuCommand>,
}

impl Renderer {
    pub open spec fn wf(self) -> bool {
        &&& self.model.wf()
        &&& self.textures.wf()
        &&& self.model.collections@.len() >= 2
        &&& self.trans matches Some(t) ==> t.handles_below(self.next_handle)
    }

    /// A fresh renderer: the two built-in collections, the built-in
    /// textures, the compositor program, and no targets yet.
    pub fn new() -> (r: Renderer)
        ensures
            r.wf(),
            r.trans is None,
            r.model.collections@.len() == 2,
            r.pending@.len() == 1,
            r.pending@[0] matches GpuCommand::CreateProgram { program, vert, frag } && program
                == r.trans_program && vert@ == "trans_vertex"@ && frag@ == "trans_frag"@,
    {
        let mut pending: Vec<GpuCommand> = Vec::new();
        pending.push(
            GpuCommand::CreateProgram {
                program: 1,
                vert: String::from_str("trans_vertex"),
                frag: String::from_str("trans_frag"),
            },
        );
        Renderer {
            model: Manager::new(),
            textures: TextureCache::new(),
            trans_program: 1,
            perspective_matrix: Mat4::identity(),
            camera_matrix: Mat4::identity(),
            width: 0,
            height: 0,
            trans: None,
            next_handle: 2,
            pending,
        }
    }

    /// Takes the new output resolution and camera matrices.  When the
    /// resolution differs from the current one (or no targets exist yet)
    /// both compositor framebuffers and all their attachments are torn
    /// down and recreated with fresh handles; otherwise the targets stay
    /// untouched.
    pub fn update_camera(&mut self, width: u32, height: u32, perspective: Mat4, camera: Mat4)
        requires
            old(self).wf(),
            width > 0,
            height > 0,
            old(self).next_handle <= 0xffff_ffff_ffff_0000,
        ensures
            final(self).wf(),
            final(self).perspective_matrix == perspective,
            final(self).camera_matrix == camera,
            final(self).width == width,
            final(self).height == height,
            final(self).model == old(self).model,
            final(self).textures == old(self).textures,
            final(self).trans_program == old(self).trans_program,
            final(self).trans matches Some(t) && t.width == width && t.height == height,
            (old(self).trans matches Some(t0) && t0.width == width && t0.height == height) ==> {
                &&& final(self).trans == old(self).trans
                &&& final(self).pending@ == old(self).pending@.push(
                    GpuCommand::Viewport { width, height },
                )
            },
            !(old(self).trans matches Some(t0) && t0.width == width && t0.height == height) ==> {
                let t = final(self).trans.unwrap();
                let teardown = match old(self).trans {
                    Some(t0) => teardown_cmds(t0),
                    None => Seq::empty(),
                };
                let base = old(self).pending@.push(GpuCommand::Viewport { width, height })
                    + teardown + setup_cmds(t, old(self).trans_program);
                &&& t.handles_at_or_above(old(self).next_handle)
                &&& final(self).pending@.len() == base.len() + 1
                &&& final(self).pending@.subrange(0, base.len() as int) == base
                &&& (final(self).pending@.last() matches GpuCommand::UploadVertexData {
                    buffer,
                    bytes,
                    realloc,
                } && buffer == t.buffer && bytes@ == resolve_quad_bytes() && realloc)
                &&& (old(self).trans matches Some(t0) ==> t0.handles().disjoint(t.handles()))
            },
    {
        self.perspective_matrix = perspective;
        self.camera_matrix = camera;
        self.width = width;
        self.height = height;
        self.pending.push(GpuCommand::Viewport { width, height });
        let same = match &self.trans {
            Some(t0) => t0.width == width && t0.height == height,
            None => false,
        };
        if same {
            return ;
        }
        match &self.trans {
            Some(t0) => {
                self.pending.push(GpuCommand::DeleteFramebuffer { fb: t0.main });
                self.pending.push(GpuCommand::DeleteTexture { tex: t0.fb_color });
                self.pending.push(GpuCommand::DeleteTexture { tex: t0.fb_depth });
                self.pending.push(GpuCommand::DeleteFramebuffer { fb: t0.trans });
                self.pending.push(GpuCommand::DeleteTexture { tex: t0.trans_depth });
                self.pending.push(GpuCommand::DeleteVertexArray { array: t0.array });
                self.pending.push(GpuCommand::DeleteBuffer { buffer: t0.buffer });
            },
            None => {},
        }
        let h = self.next_handle;
        let t = TransInfo {
            main: h + 3,
            fb_color: h + 4,
            fb_depth: h + 5,
            trans: h,
            trans_depth: h + 1,
            array: h + 2,
            buffer: h + 6,

            width,
            height,
        };
        self.next_handle = h + 7;
        self.pending.push(GpuCommand::CreateFramebuffer { fb: t.trans });
        self.pending.push(
            GpuCommand::CreateTexture {
                tex: t.trans_depth,
                kind: TexKind::Depth,
                width,
                height,
            },
        );
        self.pending.push(GpuCommand::AttachDepth { fb: t.trans, tex: t.trans_depth });
        self.pending.push(GpuCommand::CreateFramebuffer { fb: t.main });
        self.pending.push(
            GpuCommand::CreateTexture {
                tex: t.fb_color,
                kind: TexKind::MultisampleColor,
                width,
                height,
            },
        );
        self.pending.push(GpuCommand::AttachColor { fb: t.main, tex: t.fb_color });
        self.pending.push(
            GpuCommand::CreateTexture {
                tex: t.fb_depth,
                kind: TexKind::MultisampleDepth,
                width,
                height,
            },
        );
        self.pending.push(GpuCommand::AttachDepth { fb: t.main, tex: t.fb_depth });
        self.pending.push(GpuCommand::UseProgram { program: self.trans_program });
        self.pending.push(GpuCommand::CreateVertexArray { array: t.array });
        self.pending.push(GpuCommand::BindVertexArray { array: t.array });
        self.pending.push(GpuCommand::CreateBuffer { buffer: t.buffer });
        let mut quad: Vec<u8> = Vec::new();
        put_u32_le(&mut quad, NEG_ONE_BITS);
        put_u32_le(&mut quad, POS_ONE_BITS);
        put_u32_le(&mut quad, POS_ONE_BITS);
        put_u32_le(&mut quad, NEG_ONE_BITS);
        put_u32_le(&mut quad, NEG_ONE_BITS);
        put_u32_le(&mut quad, NEG_ONE_BITS);
        put_u32_le(&mut quad, POS_ONE_BITS);
        put_u32_le(&mut quad, POS_ONE_BITS);
        put_u32_le(&mut quad, POS_ONE_BITS);
        put_u32_le(&mut quad, NEG_ONE_BITS);
        put_u32_le(&mut quad, NEG_ONE_BITS);
        put_u32_le(&mut quad, POS_ONE_BITS);
        proof {
            assert(quad@ =~= resolve_quad_bytes());
        }
        self.pending.push(
            GpuCommand::UploadVertexData { buffer: t.buffer, bytes: quad, realloc: true },
        );
        let ghost told = old(self).trans;
        self.trans = Some(t);
        proof {
            let base = old(self).pending@.push(GpuCommand::Viewport { width, height }) + (
            match told {
                Some(t0) => teardown_cmds(t0),
                None => Seq::<GpuCommand>::empty(),
            }) + setup_cmds(t, old(self).trans_program);
            assert(self.pending@.subrange(0, base.len() as int) =~= base);
            match told {
                Some(t0) => {
                    lemma_recreated_handles_distinct(t0, t, old(self).next_handle);
                },
                None => {},
            }
        }
    }

    /// Emits one frame: the pending setup commands, the queued texture
    /// uploads, the opaque pass (bind the multisampled target, clear to
    /// the sky colour, draw every model collection), the transparent
    /// pass (bind the accumulation target and clear it), and the resolve
    /// draw onto the visible framebuffer.  Only the current target set's
    /// handles are bound.
    pub fn tick(&mut self) -> (cmds: Vec<GpuCommand>)
        requires
            old(self).wf(),
            old(self).trans is Some,
        ensures
            final(self).wf(),
            final(self).trans == old(self).trans,
            final(self).pending@.len() == 0,
            final(self).model.collections@ == old(self).model.collections@,
            final(self).textures.entries@ == old(self).textures.entries@,
            final(self).textures.pending@.len() == 0,
            ({
                let t = old(self).trans.unwrap();
                let p = old(self).pending@.len() as int;
                let f = old(self).textures.pending@.len() as int;
                let mp = old(self).model.pending@.len() as int;
                let cs = old(self).model.collections@;
                let d = mp + cols_cmds_len(cs, cs.len() as int);
                &&& cmds@.len() == p + f + 2 + d + 2 + 7
                &&& cmds@.subrange(0, p) == old(self).pending@
                &&& (forall|i: int|
                    0 <= i < f ==> ((#[trigger] cmds@[p + i]) matches GpuCommand::TexSubImage {
                        page,
                        x,
                        y,
                        width,
                        height,
                        bytes,
                    } && page == old(self).textures.pending@[i].page && x == old(
                        self,
                    ).textures.pending@[i].rect.x && y == old(self).textures.pending@[i].rect.y
                        && width == old(self).textures.pending@[i].rect.width && height == old(
                        self,
                    ).textures.pending@[i].rect.height && bytes@ == old(
                        self,
                    ).textures.pending@[i].bytes@))
                &&& cmds@[p + f] == (GpuCommand::BindFramebuffer { fb: t.main })
                &&& cmds@[p + f + 1] == (GpuCommand::ClearColorDepth {
                    color: Rgba { r: 122, g: 165, b: 247, a: 255 },
                })
                &&& cmds@.subrange(p + f + 2, p + f + 2 + mp) == old(self).model.pending@
                &&& is_draw_cmds(
                    cmds@.subrange(p + f + 2 + mp, p + f + 2 + d),
                    cs,
                    old(self).perspective_matrix,
                    old(self).camera_matrix,
                    old(self).model.index_kind,
                )
                &&& cmds@[p + f + 2 + d] == (GpuCommand::BindFramebuffer { fb: t.trans })
                &&& cmds@[p + f + 2 + d + 1] == (GpuCommand::ClearColor {
                    color: Rgba { r: 0, g: 0, b: 0, a: 255 },
                })
                &&& cmds@.subrange(p + f + 2 + d + 2, p + f + 2 + d + 2 + 7) == resolve_cmds(
                    t,
                    old(self).trans_program,
                )
            }),
    {
        let mut cmds: Vec<GpuCommand> = Vec::new();
        core::mem::swap(&mut cmds, &mut self.pending);
        let ghost p = cmds@.len() as int;
        let mut uploads = self.textures.flush_uploads();
        let ghost f = uploads@.len() as int;
        let ghost uploadsg = uploads@;
        cmds.append(&mut uploads);
        let t = match &self.trans {
            Some(t) => *t,
            None => {
                proof {
                    assert(false);
                }
                TransInfo {
                    main: 0,
                    fb_color: 0,
                    fb_depth: 0,
                    trans: 0,
                    trans_depth: 0,
                    array: 0,
                    buffer: 0,
                    width: 0,
                    height: 0,
                }
            },
        };
        cmds.push(GpuCommand::BindFramebuffer { fb: t.main });
        cmds.push(GpuCommand::ClearColorDepth { color: Rgba { r: 122, g: 165, b: 247, a: 255 } });
        let ghost mp = self.model.pending@.len() as int;
        let mut draw = self.model.draw(self.perspective_matrix, self.camera_matrix);
        let ghost drawg = draw@;
        let ghost cs = self.model.collections@;
        cmds.append(&mut draw);
        cmds.push(GpuCommand::BindFramebuffer { fb: t.trans });
        cmds.push(GpuCommand::ClearColor { color: Rgba { r: 0, g: 0, b: 0, a: 255 } });
        let ghost pre_resolve = cmds@;
        cmds.push(GpuCommand::BindDefaultFramebuffer);
        cmds.push(GpuCommand::ActiveTexture { unit: 0 });
        cmds.push(GpuCommand::BindTexture { tex: t.fb_color });
        cmds.push(GpuCommand::UseProgram { program: self.trans_program });
        cmds.push(GpuCommand::SetSampler { program: self.trans_program, unit: 0 });
        cmds.push(GpuCommand::BindVertexArray { array: t.array });
        cmds.push(GpuCommand::DrawArrays { count: 6 });
        proof {
            let d = mp + cols_cmds_len(cs, cs.len() as int);
            assert(cmds@.subrange(0, p) =~= old(self).pending@);
            assert(forall|i: int| 0 <= i < f ==> cmds@[p + i] == uploadsg[i]);
            assert(cmds@.subrange(p + f + 2, p + f + 2 + mp) =~= drawg.subrange(0, mp));
            assert(drawg.subrange(0, mp) =~= old(self).model.pending@);
            assert(cmds@.subrange(p + f + 2 + mp, p + f + 2 + d) =~= drawg.skip(mp));
            assert(cmds@.subrange(p + f + 2 + d + 2, p + f + 2 + d + 2 + 7) =~= resolve_cmds(
                t,
                old(self).trans_program,
            ));
        }
        cmds
    }
}

} // verus!
