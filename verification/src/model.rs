//! Batched model drawing.
//!
//! A [`Manager`] groups drawable objects into shader-keyed collections,
//! encodes each object's vertices into a tightly packed GPU buffer, and
//! draws every model with one indexed call over a single shared,
//! monotonically growing index buffer.

use vstd::prelude::*;
use crate::bytes::{put_u16_le, put_u32_le, put_u8, u16_le_bytes, u32_le_bytes};
use crate::commands::{GpuCommand, IndexKind, Rgba};
use crate::texture::{frac_le_one, mul_div, Frac, Texture};

verus! {

/// A 4x4 transform.  Each entry is the raw bit pattern of a 32-bit
/// float, column major; the core stores and forwards transforms but never
/// does float arithmetic on them.
#[derive(Clone, Copy, Debug, PartialEq, Eq)]
pub struct Mat4 {
    pub m: [u32; 16],
}

/// Bit pattern of the 32-bit float `1.0`.
pub const FLOAT_ONE_BITS: u32 = 0x3f80_0000;

impl Mat4 {
    /// The identity transform (ones down the diagonal, as float bits).
    pub open spec fn spec_identity() -> Mat4 {
        Mat4 {
            m: [
                FLOAT_ONE_BITS,
                0,
                0,
                0,
                0,
                FLOAT_ONE_BITS,
                0,
                0,
                0,
                0,
                FLOAT_ONE_BITS,
                0,
                0,
                0,
                0,
                FLOAT_ONE_BITS,
            ],
        }
    }

    /// The identity transform.
    pub fn identity() -> (r: Mat4)
        ensures
            r == Mat4::spec_identity(),
    {
        Mat4 {
            m: [
                FLOAT_ONE_BITS,
                0,
                0,
                0,
                0,
                FLOAT_ONE_BITS,
                0,
                0,
                0,
                0,
                FLOAT_ONE_BITS,
                0,
                0,
                0,
                0,
                FLOAT_ONE_BITS,
            ],
        }
    }
}

/// One corner of a textured quad.  `x`, `y`, `z` are raw bit patterns of
/// 32-bit floats; `texture_x` and `texture_y` are exact fractions of the
/// texture's effective rectangle.
#[derive(Debug)]
pub struct Vertex {
    pub x: u32,
    pub y: u32,
    pub z: u32,
    pub texture: Texture,
    pub texture_x: Frac,
    pub texture_y: Frac,
    pub r: u8,
    pub g: u8,
    pub b: u8,
    pub a: u8,
    /// Index into the owning model's per-part transform and colour
    /// arrays.
    pub id: u8,
}

impl Clone for Vertex {
    fn clone(&self) -> (v: Vertex)
        ensures
            v == *self,
    {
        Vertex {
            x: self.x,
            y: self.y,
            z: self.z,
            texture: self.texture.clone(),
            texture_x: self.texture_x,
            texture_y: self.texture_y,
            r: self.r,
            g: self.g,
            b: self.b,
            a: self.a,
            id: self.id,
        }
    }
}

/// A vertex whose texture coordinates can be scaled to the buffer's
/// 16-bit fixed-point texel format (atlas coordinates at most 4095).
pub open spec fn wf_vertex(v: Vertex) -> bool {
    &&& v.texture.wf()
    &&& v.texture.x + v.texture.width <= 4095
    &&& v.texture.y + v.texture.height <= 4095
    &&& v.texture_x.den > 0
    &&& frac_le_one(v.texture_x)
    &&& v.texture_y.den > 0
    &&& frac_le_one(v.texture_y)
}

/// Fixed-point offset of a vertex's texture coordinate within the
/// effective extent: `floor(16 * extent * f)`.
pub open spec fn tex_off(extent: int, f: Frac) -> int {
    (16 * extent * f.num) / (f.den as int)
}

/// The 36 bytes of one packed vertex: position as three float bit
/// patterns, the effective texture rectangle and the in-texture offsets
/// in 16.4 fixed-point texel units (two reserved zero slots), the packed
/// colour, the part id and three padding bytes.
pub open spec fn vertex_bytes(v: Vertex) -> Seq<u8> {
    u32_le_bytes(v.x) + u32_le_bytes(v.y) + u32_le_bytes(v.z) + u16_le_bytes(
        (16 * v.texture.eff_x()) as u16,
    ) + u16_le_bytes((16 * v.texture.eff_y()) as u16) + u16_le_bytes(
        (16 * v.texture.eff_width()) as u16,
    ) + u16_le_bytes((16 * v.texture.eff_height()) as u16) + u16_le_bytes(
        tex_off(v.texture.eff_width(), v.texture_x) as u16,
    ) + u16_le_bytes(tex_off(v.texture.eff_height(), v.texture_y) as u16) + u16_le_bytes(0)
        + u16_le_bytes(0) + seq![v.r, v.g, v.b, v.a, v.id, 0u8, 0u8, 0u8]
}

/// The packed bytes of the first `n` vertices.
pub open spec fn verts_bytes(vs: Seq<Vertex>, n: int) -> Seq<u8>
    decreases n,
{
    if n <= 0 {
        Seq::empty()
    } else {
        verts_bytes(vs, n - 1) + vertex_bytes(vs[n - 1])
    }
}

/// Appends the 36 packed bytes of one vertex.
fn encode_vertex(out: &mut Vec<u8>, v: &Vertex)
    requires
        wf_vertex(*v),
    ensures
        final(out)@ == old(out)@ + vertex_bytes(*v),
{
    proof {
        crate::texture::lemma_effective_in_base(v.texture);
    }
    put_u32_le(out, v.x);
    put_u32_le(out, v.y);
    put_u32_le(out, v.z);
    let ex = v.texture.get_x();
    let ey = v.texture.get_y();
    let ew = v.texture.get_width();
    let eh = v.texture.get_height();
    put_u16_le(out, (16 * ex) as u16);
    put_u16_le(out, (16 * ey) as u16);
    put_u16_le(out, (16 * ew) as u16);
    put_u16_le(out, (16 * eh) as u16);
    let u_off = mul_div(16 * ew, v.texture_x.num, v.texture_x.den);
    let v_off = mul_div(16 * eh, v.texture_y.num, v.texture_y.den);
    put_u16_le(out, u_off as u16);
    put_u16_le(out, v_off as u16);
    put_u16_le(out, 0);
    put_u16_le(out, 0);
    put_u8(out, v.r);
    put_u8(out, v.g);
    put_u8(out, v.b);
    put_u8(out, v.a);
    put_u8(out, v.id);
    put_u8(out, 0);
    put_u8(out, 0);
    put_u8(out, 0);
    proof {
        assert(final(out)@ =~= old(out)@ + vertex_bytes(*v));
    }
}

/// Packs a vertex list into its interleaved GPU buffer bytes.
pub fn encode_model_verts(verts: &Vec<Vertex>) -> (out: Vec<u8>)
    requires
        forall|i: int| 0 <= i < verts@.len() ==> wf_vertex(#[trigger] verts@[i]),
    ensures
        out@ == verts_bytes(verts@, verts@.len() as int),
{
    let mut out: Vec<u8> = Vec::new();
    let mut i: usize = 0;
    while i < verts.len()
        invariant
            i <= verts.len(),
            forall|k: int| 0 <= k < verts@.len() ==> wf_vertex(#[trigger] verts@[k]),
            out@ == verts_bytes(verts@, i as int),
        decreases verts.len() - i,
    {
        encode_vertex(&mut out, &verts[i]);
        i += 1;
    }
    out
}

/// The shared index buffer switches to 32-bit elements exactly when some
/// index value of a buffer for `size` elements would not fit in 16 bits.
pub open spec fn needs_wide_indices(size: int) -> bool {
    4 * (size / 6) > 0x10000
}

/// The six indices of quad `i` (two triangles, `0-1-2` and `2-1-3`),
/// each encoded with the chosen element width.
pub open spec fn quad_index_bytes(i: int, wide: bool) -> Seq<u8> {
    if wide {
        u32_le_bytes((4 * i) as u32) + u32_le_bytes((4 * i + 1) as u32) + u32_le_bytes(
            (4 * i + 2) as u32,
        ) + u32_le_bytes((4 * i + 2) as u32) + u32_le_bytes((4 * i + 1) as u32) + u32_le_bytes(
            (4 * i + 3) as u32,
        )
    } else {
        u16_le_bytes((4 * i) as u16) + u16_le_bytes((4 * i + 1) as u16) + u16_le_bytes(
            (4 * i + 2) as u16,
        ) + u16_le_bytes((4 * i + 2) as u16) + u16_le_bytes((4 * i + 1) as u16) + u16_le_bytes(
            (4 * i + 3) as u16,
        )
    }
}

/// The element-buffer bytes for the first `quads` quads.
pub open spec fn element_buffer_bytes(quads: int, wide: bool) -> Seq<u8>
    decreases quads,
{
    if quads <= 0 {
        Seq::empty()
    } else {
        element_buffer_bytes(quads - 1, wide) + quad_index_bytes(quads - 1, wide)
    }
}

/// Builds the shared element buffer for `size` indices: the fixed
/// `0-1-2, 2-1-3` pattern for each quad of four vertices, with 16-bit
/// elements unless some index would overflow them, and 32-bit elements
/// from then on.
pub fn generate_element_buffer(size: usize) -> (r: (Vec<u8>, IndexKind))
    requires
        size <= 0x6000_0000,
    ensures
        r.1 == (if needs_wide_indices(size as int) {
            IndexKind::Wide
        } else {
            IndexKind::Short
        }),
        r.0@ == element_buffer_bytes(size as int / 6, needs_wide_indices(size as int)),
{
    let quads: usize = size / 6;
    let wide = 4 * quads > 0x10000;
    let mut data: Vec<u8> = Vec::new();
    let mut i: usize = 0;
    while i < quads
        invariant
            i <= quads,
            quads == size / 6,
            size <= 0x6000_0000,
            wide == needs_wide_indices(size as int),
            data@ == element_buffer_bytes(i as int, wide),
        decreases quads - i,
    {
        let base = 4 * i;
        if wide {
            put_u32_le(&mut data, base as u32);
            put_u32_le(&mut data, (base + 1) as u32);
            put_u32_le(&mut data, (base + 2) as u32);
            put_u32_le(&mut data, (base + 2) as u32);
            put_u32_le(&mut data, (base + 1) as u32);
            put_u32_le(&mut data, (base + 3) as u32);
        } else {
            put_u16_le(&mut data, base as u16);
            put_u16_le(&mut data, (base + 1) as u16);
            put_u16_le(&mut data, (base + 2) as u16);
            put_u16_le(&mut data, (base + 2) as u16);
            put_u16_le(&mut data, (base + 1) as u16);
            put_u16_le(&mut data, (base + 3) as u16);
        }
        proof {
            assert(data@ =~= element_buffer_bytes(i as int, wide) + quad_index_bytes(
                i as int,
                wide,
            ));
        }
        i += 1;
    }
    (data, if wide {
        IndexKind::Wide
    } else {
        IndexKind::Short
    })
}

/// Identifies one shader-keyed batch group.
#[derive(Clone, Copy, Debug, PartialEq, Eq, Hash, Structural)]
pub struct CollectionKey(pub usize);

/// Identifies one drawable object within a collection.
#[derive(Clone, Copy, Debug, PartialEq, Eq, Hash, Structural)]
pub struct ModelKey(pub CollectionKey, pub usize);

impl CollectionKey {
    /// The built-in collection for general world geometry.
    pub fn default_world() -> (k: CollectionKey)
        ensures
            k.0 == 0,
    {
        CollectionKey(0)
    }

    /// The built-in collection for the sky object.
    pub fn sun_sky() -> (k: CollectionKey)
        ensures
            k.0 == 1,
    {
        CollectionKey(1)
    }
}

/// One drawable object: per-part transforms and colour multipliers, its
/// packed GPU vertex buffer, and the vertex list it was built from.
#[derive(Debug)]
pub struct Model {
    /// One transform per part.
    pub matrix: Vec<Mat4>,
    /// One colour multiplier per part.
    pub colors: Vec<Rgba>,
    /// Handle of the model's vertex array object.
    pub array: u64,
    /// Handle of the model's vertex buffer.
    pub buffer: u64,
    /// Bytes currently allocated for the vertex buffer.
    pub buffer_size: usize,
    /// Number of indices this model draws: six per quad of four vertices.
    pub count: u32,
    /// The vertices the buffer was packed from.
    pub verts: Vec<Vertex>,
}

impl Model {
    /// Parts are consistent, geometry is whole quads, and the cached
    /// draw count matches the vertex list.
    pub open spec fn wf(self) -> bool {
        &&& self.matrix@.len() == self.colors@.len()
        &&& self.verts@.len() % 4 == 0
        &&& self.verts@.len() <= 0x1000_0000
        &&& self.count == (self.verts@.len() as int / 4) * 6
        &&& forall|i: int| 0 <= i < self.verts@.len() ==> wf_vertex(#[trigger] self.verts@[i])
    }
}

/// One shader-keyed batch group.
#[derive(Debug)]
pub struct Collection {
    /// Handle of the compiled shader program.
    pub program: u64,
    /// Logical name of the vertex shader source.
    pub vert_name: String,
    /// Logical name of the fragment shader source.
    pub frag_name: String,
    /// Live models, keyed by their per-collection id.
    pub models: Vec<(usize, Model)>,
    /// Next id to hand out; never reused while this manager lives.
    pub next_id: usize,
}

/// The model stored under `id`, if any.
pub open spec fn find_model(models: Seq<(usize, Model)>, id: usize) -> Option<Model>
    decreases models.len(),
{
    if models.len() == 0 {
        None
    } else if models[0].0 == id {
        Some(models[0].1)
    } else {
        find_model(models.drop_first(), id)
    }
}

impl Collection {
    /// Ids are unique, below the id counter, and every model is sane.
    pub open spec fn wf(self) -> bool {
        &&& forall|i: int, j: int|
            0 <= i < j < self.models@.len() ==> (#[trigger] self.models@[i]).0 != (
            #[trigger] self.models@[j]).0
        &&& forall|i: int| 0 <= i < self.models@.len() ==> (#[trigger] self.models@[i]).0
            < self.next_id
        &&& forall|i: int| 0 <= i < self.models@.len() ==> (#[trigger] self.models@[i]).1.wf()
    }
}

/// Groups models into shader-keyed collections and draws them in batches
/// over one shared index buffer.
#[derive(Debug)]
pub struct Manager {
    /// The batch groups, in registration order.
    pub collections: Vec<Collection>,
    /// Handle of the shared element buffer.
    pub index_buffer: u64,
    /// Current element width of the shared index buffer.
    pub index_kind: IndexKind,
    /// Number of indices the shared buffer currently provides.
    pub max_index: usize,
    /// Next GPU object handle to issue.
    pub next_handle: u64,
    /// Commands built up by model creation and removal, handed to the
    /// renderer on the next draw.
    pub pending: Vec<GpuCommand>,
}

impl Manager {
    /// Collections are sane and the element width matches the provisioned
    /// index count.
    pub open spec fn wf(self) -> bool {
        &&& forall|c: int| 0 <= c < self.collections@.len() ==> (
        #[trigger] self.collections@[c]).wf()
        &&& self.max_index <= 0x6000_0000
        &&& self.index_kind == (if needs_wide_indices(self.max_index as int) {
            IndexKind::Wide
        } else {
            IndexKind::Short
        })
    }

    /// A fresh manager with the two built-in collections: general world
    /// geometry and the sky object.
    pub fn new() -> (m: Manager)
        ensures
            m.wf(),
            m.collections@.len() == 2,
            m.collections@[0].vert_name@ == "model_vertex"@,
            m.collections@[0].frag_name@ == "model_frag"@,
            m.collections@[1].vert_name@ == "sun_vertex"@,
            m.collections@[1].frag_name@ == "sun_frag"@,
            m.collections@[0].models@.len() == 0,
            m.collections@[1].models@.len() == 0,
            m.max_index == 0,
    {
        let mut m = Manager {
            collections: Vec::new(),
            index_buffer: 1,
            index_kind: IndexKind::Short,
            max_index: 0,
            next_handle: 2,
            pending: Vec::new(),
        };
        m.pending.push(GpuCommand::CreateBuffer { buffer: 1 });
        let k0 = m.add_collection("model_vertex", "model_frag");
        let k1 = m.add_collection("sun_vertex", "sun_frag");
        m
    }

    /// Compiles a shader pair into a fresh, empty collection and returns
    /// its key.
    pub fn add_collection(&mut self, vert: &str, frag: &str) -> (key: CollectionKey)
        requires
            old(self).wf(),
            old(self).next_handle <= 0xffff_ffff_ffff_0000,
        ensures
            final(self).wf(),
            key.0 == old(self).collections@.len(),
            final(self).collections@.len() == old(self).collections@.len() + 1,
            forall|c: int|
                0 <= c < old(self).collections@.len() ==> final(self).collections@[c] == old(
                    self,
                ).collections@[c],
            ({
                let newc = final(self).collections@[key.0 as int];
                &&& newc.vert_name@ == vert@
                &&& newc.frag_name@ == frag@
                &&& newc.models@.len() == 0
                &&& newc.next_id == 0
            }),
            final(self).pending@.len() == old(self).pending@.len() + 1,
            final(self).pending@.subrange(0, old(self).pending@.len() as int) == old(
                self,
            ).pending@,
            ({
                let cmd = final(self).pending@.last();
                &&& cmd matches GpuCommand::CreateProgram { program, vert: v, frag: f }
                &&& program == final(self).collections@[key.0 as int].program
                &&& v@ == vert@
                &&& f@ == frag@
            }),
            final(self).index_buffer == old(self).index_buffer,
            final(self).index_kind == old(self).index_kind,
            final(self).max_index == old(self).max_index,
            final(self).next_handle == old(self).next_handle + 1,
    {
        let program = self.next_handle;
        self.next_handle += 1;
        let collection = Collection {
            program,
            vert_name: vert.to_owned(),
            frag_name: frag.to_owned(),
            models: Vec::new(),
            next_id: 0,
        };
        let key = CollectionKey(self.collections.len());
        self.collections.push(collection);
        self.pending.push(
            GpuCommand::CreateProgram { program, vert: vert.to_owned(), frag: frag.to_owned() },
        );
        proof {
            assert(final(self).pending@.subrange(0, old(self).pending@.len() as int) =~= old(
                self,
            ).pending@);
        }
        key
    }

    /// Looks up a live model for reading.  Returns nothing when the
    /// key's collection was never registered or the id was removed.
    pub fn get_model(&self, key: ModelKey) -> (r: Option<&Model>)
        ensures
            r is Some <==> (key.0).0 < self.collections@.len() && find_model(
                self.collections@[(key.0).0 as int].models@,
                key.1,
            ) is Some,
            r matches Some(m) ==> find_model(self.collections@[(key.0).0 as int].models@, key.1)
                == Some(*m),
    {
        if (key.0).0 >= self.collections.len() {
            return None;
        }
        let collection = &self.collections[(key.0).0];
        let ghost ms = collection.models@;
        proof {
            assert(ms.skip(0) =~= ms);
        }
        let mut j: usize = 0;
        while j < collection.models.len()
            invariant
                j <= ms.len(),
                (key.0).0 < self.collections@.len(),
                ms == self.collections@[(key.0).0 as int].models@,
                ms == collection.models@,
                find_model(ms, key.1) == find_model(ms.skip(j as int), key.1),
            decreases ms.len() - j,
        {
            if collection.models[j].0 == key.1 {
                proof {
                    lemma_find_model_skip_head(ms, j as int, key.1);
                    assert(find_model(ms, key.1) == Some(ms[j as int].1));
                    assert(self.collections@[(key.0).0 as int].models@ == ms);
                }
                return Some(&collection.models[j].1);
            }
            proof {
                lemma_find_model_skip_head(ms, j as int, key.1);
            }
            j += 1;
        }
        proof {
            assert(ms.skip(j as int).len() == 0);
        }
        None
    }

    /// Builds one drawable object from whole quads.
    ///
    /// Each inner vector is one part sharing one transform (initially the
    /// identity) and one colour multiplier (initially opaque white).  The
    /// vertices are packed into a fresh GPU buffer, and the shared index
    /// buffer is grown - never shrunk - when this model needs more
    /// indices than are provisioned; growing past the 16-bit range
    /// switches the element width to 32 bits, and the width never
    /// narrows again.  Returns a fresh key.
    pub fn create_model(&mut self, ckey: CollectionKey, parts: Vec<Vec<Vertex>>) -> (key: ModelKey)
        requires
            old(self).wf(),
            ckey.0 < old(self).collections@.len(),
            old(self).collections@[ckey.0 as int].next_id < usize::MAX,
            old(self).next_handle <= 0xffff_ffff_ffff_0000,
            forall|i: int| 0 <= i < parts@.len() ==> (#[trigger] parts@[i])@.len() % 4 == 0,
            forall|i: int, j: int|
                0 <= i < parts@.len() && 0 <= j < parts@[i]@.len() ==> wf_vertex(
                    #[trigger] parts@[i]@[j],
                ),
            verts_of_parts(parts@, parts@.len() as int).len() <= 0x1000_0000,
        ensures
            final(self).wf(),
            key == ModelKey(ckey, old(self).collections@[ckey.0 as int].next_id),
            final(self).collections@.len() == old(self).collections@.len(),
            forall|c: int|
                0 <= c < old(self).collections@.len() && c != ckey.0 ==> final(self).collections@[c] == old(self).collections@[c],
            ({
                let oldc = old(self).collections@[ckey.0 as int];
                let newc = final(self).collections@[ckey.0 as int];
                let total = verts_of_parts(parts@, parts@.len() as int).len() as int;
                let cnt = (total / 4) * 6;
                &&& newc.program == oldc.program
                &&& newc.vert_name == oldc.vert_name
                &&& newc.frag_name == oldc.frag_name
                &&& newc.next_id == oldc.next_id + 1
                &&& newc.models@.len() == oldc.models@.len() + 1
                &&& newc.models@.subrange(0, oldc.models@.len() as int) == oldc.models@
                &&& newc.models@.last().0 == oldc.next_id
                &&& ({
                    let m = newc.models@.last().1;
                    &&& m.verts@ == verts_of_parts(parts@, parts@.len() as int)
                    &&& m.count == cnt
                    &&& m.matrix@.len() == parts@.len()
                    &&& forall|p: int|
                        0 <= p < parts@.len() ==> m.matrix@[p] == Mat4::spec_identity()
                    &&& m.colors@.len() == parts@.len()
                    &&& forall|p: int|
                        0 <= p < parts@.len() ==> m.colors@[p] == (Rgba {
                            r: 255,
                            g: 255,
                            b: 255,
                            a: 255,
                        })
                    &&& m.buffer_size == 36 * total
                })
            }),
            ({
                let total = verts_of_parts(parts@, parts@.len() as int).len() as int;
                let cnt = (total / 4) * 6;
                let grew = cnt > old(self).max_index;
                let n0 = old(self).pending@.len() as int;
                let m = final(self).collections@[ckey.0 as int].models@.last().1;
                &&& final(self).max_index == (if grew {
                    cnt
                } else {
                    old(self).max_index as int
                })
                &&& final(self).max_index >= old(self).max_index
                &&& (old(self).index_kind == IndexKind::Wide ==> final(self).index_kind
                    == IndexKind::Wide)
                &&& final(self).pending@.len() == n0 + 4 + (if grew {
                    1int
                } else {
                    0int
                })
                &&& final(self).pending@.subrange(0, n0) == old(self).pending@
                &&& final(self).pending@[n0] matches GpuCommand::CreateVertexArray { array }
                    && array == m.array
                &&& final(self).pending@[n0 + 1] matches GpuCommand::BindVertexArray { array }
                    && array == m.array
                &&& final(self).pending@[n0 + 2] matches GpuCommand::CreateBuffer { buffer }
                    && buffer == m.buffer
                &&& final(self).pending@[n0 + 3] matches GpuCommand::UploadVertexData {
                    buffer,
                    bytes,
                    realloc,
                } && buffer == m.buffer && bytes@ == verts_bytes(m.verts@, total) && realloc
                &&& (grew ==> (final(self).pending@[n0 + 4] matches GpuCommand::UploadIndexData {
                    buffer,
                    bytes,
                    kind,
                } && buffer == old(self).index_buffer && bytes@ == element_buffer_bytes(
                    cnt / 6,
                    needs_wide_indices(cnt),
                ) && kind == final(self).index_kind))
            }),
            final(self).index_buffer == old(self).index_buffer,
            final(self).next_handle == old(self).next_handle + 2,
    {
        let ghost partsg = parts@;
        let ghost total_verts = verts_of_parts(parts@, parts@.len() as int).len() as int;
        let mut verts: Vec<Vertex> = Vec::new();
        let mut i: usize = 0;
        while i < parts.len()
            invariant
                i <= partsg.len(),
                parts@ == partsg,
                verts@ == verts_of_parts(partsg, i as int),
                forall|a: int, b: int|
                    0 <= a < partsg.len() && 0 <= b < partsg[a]@.len() ==> wf_vertex(
                        #[trigger] partsg[a]@[b],
                    ),
            decreases parts.len() - i,
        {
            let mut j: usize = 0;
            while j < parts[i].len()
                invariant
                    i < partsg.len(),
                    j <= partsg[i as int]@.len(),
                    parts@ == partsg,
                    verts@ == verts_of_parts(partsg, i as int) + partsg[i as int]@.subrange(
                        0,
                        j as int,
                    ),
                    forall|a: int, b: int|
                        0 <= a < partsg.len() && 0 <= b < partsg[a]@.len() ==> wf_vertex(
                            #[trigger] partsg[a]@[b],
                        ),
                decreases partsg[i as int]@.len() - j,
            {
                verts.push(parts[i][j].clone());
                proof {
                    assert(verts@ =~= verts_of_parts(partsg, i as int) + partsg[i as int]@.subrange(
                        0,
                        j + 1,
                    ));
                }
                j += 1;
            }
            proof {
                assert(partsg[i as int]@.subrange(0, partsg[i as int]@.len() as int) =~= partsg[
                    i as int
                ]@);
                assert(verts@ =~= verts_of_parts(partsg, i + 1));
            }
            i += 1;
        }
        let mut matrix: Vec<Mat4> = Vec::new();
        let mut colors: Vec<Rgba> = Vec::new();
        let mut p: usize = 0;
        while p < parts.len()
            invariant
                p <= parts@.len(),
                matrix@.len() == p,
                colors@.len() == p,
                forall|k: int| 0 <= k < p ==> matrix@[k] == Mat4::spec_identity(),
                forall|k: int|
                    0 <= k < p ==> colors@[k] == (Rgba { r: 255, g: 255, b: 255, a: 255 }),
            decreases parts.len() - p,
        {
            matrix.push(Mat4::identity());
            colors.push(Rgba { r: 255, g: 255, b: 255, a: 255 });
            p += 1;
        }
        proof {
            lemma_verts_of_parts_quads(partsg, partsg.len() as int);
            lemma_verts_of_parts_wf(partsg, partsg.len() as int);
            lemma_verts_bytes_len(verts@, verts@.len() as int);
        }
        let total = verts.len();
        let count32 = ((total / 4) * 6) as u32;
        let bytes = encode_model_verts(&verts);
        let bsize = bytes.len();
        let array = self.next_handle;
        let buffer = self.next_handle + 1;
        self.next_handle += 2;
        self.pending.push(GpuCommand::CreateVertexArray { array });
        self.pending.push(GpuCommand::BindVertexArray { array });
        self.pending.push(GpuCommand::CreateBuffer { buffer });
        self.pending.push(GpuCommand::UploadVertexData { buffer, bytes, realloc: true });
        if self.max_index < count32 as usize {
            proof {
                if self.index_kind == IndexKind::Wide {
                    vstd::arithmetic::div_mod::lemma_div_is_ordered(
                        self.max_index as int,
                        count32 as int,
                        6,
                    );
                }
            }
            let (data, kind) = generate_element_buffer(count32 as usize);
            self.pending.push(
                GpuCommand::UploadIndexData { buffer: self.index_buffer, bytes: data, kind },
            );
            self.max_index = count32 as usize;
            self.index_kind = kind;
        }
        let model = Model {
            matrix,
            colors,
            array,
            buffer,
            buffer_size: bsize,
            count: count32,
            verts,
        };
        let mut collection = self.collections.remove(ckey.0);
        let id = collection.next_id;
        collection.next_id += 1;
        collection.models.push((id, model));
        self.collections.insert(ckey.0, collection);
        proof {
            assert(final(self).collections@ =~= old(self).collections@.update(
                ckey.0 as int,
                final(self).collections@[ckey.0 as int],
            ));
            assert(final(self).collections@[ckey.0 as int].models@.subrange(
                0,
                old(self).collections@[ckey.0 as int].models@.len() as int,
            ) =~= old(self).collections@[ckey.0 as int].models@);
            assert(final(self).pending@.subrange(0, old(self).pending@.len() as int) =~= old(
                self,
            ).pending@);
        }
        ModelKey(ckey, id)
    }

    /// Detaches a live model and releases its GPU objects.  Removing a
    /// key that is not live is a caller error.
    pub fn remove_model(&mut self, key: ModelKey)
        requires
            old(self).wf(),
            (key.0).0 < old(self).collections@.len(),
            find_model(old(self).collections@[(key.0).0 as int].models@, key.1) is Some,
        ensures
            final(self).wf(),
            final(self).collections@.len() == old(self).collections@.len(),
            forall|c: int|
                0 <= c < old(self).collections@.len() && c != (key.0).0 ==> final(self).collections@[c] == old(self).collections@[c],
            ({
                let oldc = old(self).collections@[(key.0).0 as int];
                let newc = final(self).collections@[(key.0).0 as int];
                &&& newc.program == oldc.program
                &&& newc.vert_name == oldc.vert_name
                &&& newc.frag_name == oldc.frag_name
                &&& newc.next_id == oldc.next_id
                &&& exists|j: int|
                    {
                        &&& 0 <= j < oldc.models@.len()
                        &&& (#[trigger] oldc.models@[j]).0 == key.1
                        &&& newc.models@ == oldc.models@.remove(j)
                        &&& final(self).pending@ == old(self).pending@ + seq![
                            GpuCommand::DeleteVertexArray { array: oldc.models@[j].1.array },
                            GpuCommand::DeleteBuffer { buffer: oldc.models@[j].1.buffer },
                        ]
                    }
            }),
            find_model(final(self).collections@[(key.0).0 as int].models@, key.1) is None,
            final(self).index_buffer == old(self).index_buffer,
            final(self).index_kind == old(self).index_kind,
            final(self).max_index == old(self).max_index,
            final(self).next_handle == old(self).next_handle,
    {
        let c = (key.0).0;
        let mut collection = self.collections.remove(c);
        let ghost ms = collection.models@;
        proof {
            assert(ms.skip(0) =~= ms);
        }
        let mut j: usize = 0;
        while j < collection.models.len() && collection.models[j].0 != key.1
            invariant
                ms == collection.models@,
                find_model(ms, key.1) is Some,
                j <= ms.len(),
                find_model(ms, key.1) == find_model(ms.skip(j as int), key.1),
            decreases ms.len() - j,
        {
            proof {
                lemma_find_model_skip_head(ms, j as int, key.1);
            }
            j += 1;
        }
        proof {
            if j == ms.len() {
                assert(ms.skip(j as int).len() == 0);
            }
            assert(j < ms.len() && ms[j as int].0 == key.1);
        }
        let entry = collection.models.remove(j);
        self.pending.push(GpuCommand::DeleteVertexArray { array: entry.1.array });
        self.pending.push(GpuCommand::DeleteBuffer { buffer: entry.1.buffer });
        self.collections.insert(c, collection);
        proof {
            assert(final(self).collections@ =~= old(self).collections@.update(
                c as int,
                final(self).collections@[c as int],
            ));
            assert(final(self).pending@ =~= old(self).pending@ + seq![
                GpuCommand::DeleteVertexArray { array: ms[j as int].1.array },
                GpuCommand::DeleteBuffer { buffer: ms[j as int].1.buffer },
            ]);
            lemma_find_model_unique_removed(ms, j as int, key.1);
        }
    }

    /// Replaces one part's transform of a live model.  Returns `false`,
    /// changing nothing, when the key or the part index is not live.
    pub fn set_model_matrix(&mut self, key: ModelKey, part: usize, mat: Mat4) -> (ok: bool)
        requires
            old(self).wf(),
        ensures
            final(self).wf(),
            ok <==> ((key.0).0 < old(self).collections@.len() && (find_model(
                old(self).collections@[(key.0).0 as int].models@,
                key.1,
            ) matches Some(m) && part < m.matrix@.len())),
            !ok ==> *final(self) == *old(self),
            ok ==> final(self).collections@.len() == old(self).collections@.len(),
            ok ==> forall|c: int|
                0 <= c < old(self).collections@.len() && c != (key.0).0 ==> final(self).collections@[c] == old(self).collections@[c],
            ok ==> ({
                let oldc = old(self).collections@[(key.0).0 as int];
                let newc = final(self).collections@[(key.0).0 as int];
                &&& newc.program == oldc.program
                &&& newc.vert_name == oldc.vert_name
                &&& newc.frag_name == oldc.frag_name
                &&& newc.next_id == oldc.next_id
                &&& newc.models@.len() == oldc.models@.len()
                &&& exists|j: int|
                    {
                        &&& 0 <= j < oldc.models@.len()
                        &&& (#[trigger] oldc.models@[j]).0 == key.1
                        &&& newc.models@[j].0 == key.1
                        &&& same_model_except_matrix(oldc.models@[j].1, newc.models@[j].1)
                        &&& newc.models@[j].1.matrix@ == oldc.models@[j].1.matrix@.update(
                            part as int,
                            mat,
                        )
                        &&& forall|k: int|
                            0 <= k < oldc.models@.len() && k != j ==> newc.models@[k]
                                == oldc.models@[k]
                    }
            }),
            ok ==> final(self).pending@ == old(self).pending@,
            ok ==> final(self).index_buffer == old(self).index_buffer && final(self).index_kind
                == old(self).index_kind && final(self).max_index == old(self).max_index && final(self).next_handle == old(self).next_handle,
    {
        if (key.0).0 >= self.collections.len() {
            return false;
        }
        let c = (key.0).0;
        let ghost ms = self.collections@[c as int].models@;
        let mut j: usize = 0;
        let mut found = false;
        {
            let collection = &self.collections[c];
            proof {
                assert(ms.skip(0) =~= ms);
            }
            while !found && j < collection.models.len()
                invariant
                    c < self.collections@.len(),
                    ms == self.collections@[c as int].models@,
                    ms == collection.models@,
                    j <= ms.len(),
                    found ==> j < ms.len() && ms[j as int].0 == key.1 && find_model(ms, key.1)
                        == Some(ms[j as int].1),
                    !found ==> find_model(ms, key.1) == find_model(ms.skip(j as int), key.1),
                decreases ms.len() - j, (if found {
                    0int
                } else {
                    1int
                }),
            {
                if collection.models[j].0 == key.1 {
                    proof {
                        lemma_find_model_skip_head(ms, j as int, key.1);
                    }
                    found = true;
                } else {
                    proof {
                        lemma_find_model_skip_head(ms, j as int, key.1);
                    }
                    j += 1;
                }
            }
            if !found {
                proof {
                    assert(ms.skip(j as int).len() == 0);
                }
                return false;
            }
            if part >= collection.models[j].1.matrix.len() {
                return false;
            }
        }
        let mut collection = self.collections.remove(c);
        let mut entry = collection.models.remove(j);
        let mut mats: Vec<Mat4> = Vec::new();
        core::mem::swap(&mut mats, &mut entry.1.matrix);
        mats.remove(part);
        mats.insert(part, mat);
        entry.1.matrix = mats;
        proof {
            ms[j as int].1.matrix@.remove_ensures(part as int);
            assert(entry.1.matrix@ =~= ms[j as int].1.matrix@.update(part as int, mat));
        }
        collection.models.insert(j, entry);
        self.collections.insert(c, collection);
        proof {
            ms.remove_ensures(j as int);
            assert(final(self).collections@ =~= old(self).collections@.update(
                c as int,
                final(self).collections@[c as int],
            ));
            assert(final(self).collections@[c as int].models@ =~= ms.update(
                j as int,
                final(self).collections@[c as int].models@[j as int],
            ));
        }
        true
    }

    /// Emits one frame's model drawing: first the commands pending from
    /// model creation and removal, then, for each collection in
    /// registration order, its program selection, the two camera
    /// matrices, and per live model its uniform uploads followed by its
    /// one indexed draw call.
    #[verifier::rlimit(60)]
    pub fn draw(&mut self, perspective_matrix: Mat4, camera_matrix: Mat4) -> (cmds: Vec<
        GpuCommand,
    >)
        requires
            old(self).wf(),
        ensures
            final(self).wf(),
            final(self).collections@ == old(self).collections@,
            final(self).pending@.len() == 0,
            final(self).index_buffer == old(self).index_buffer,
            final(self).index_kind == old(self).index_kind,
            final(self).max_index == old(self).max_index,
            final(self).next_handle == old(self).next_handle,
            cmds@.len() == old(self).pending@.len() + cols_cmds_len(
                old(self).collections@,
                old(self).collections@.len() as int,
            ),
            cmds@.subrange(0, old(self).pending@.len() as int) == old(self).pending@,
            is_draw_cmds(
                cmds@.skip(old(self).pending@.len() as int),
                old(self).collections@,
                perspective_matrix,
                camera_matrix,
                old(self).index_kind,
            ),
    {
        let mut cmds: Vec<GpuCommand> = Vec::new();
        core::mem::swap(&mut cmds, &mut self.pending);
        let ghost n0 = cmds@.len() as int;
        let ghost cs = self.collections@;
        let ghost kind0 = self.index_kind;
        let mut c: usize = 0;
        while c < self.collections.len()
            invariant
                self.collections@ == cs,
                self.index_kind == kind0,
                self.wf(),
                c <= cs.len(),
                n0 == old(self).pending@.len(),
                cmds@.len() == n0 + cols_cmds_len(cs, c as int),
                cmds@.subrange(0, n0) == old(self).pending@,
                forall|cc: int|
                    0 <= cc < c ==> is_collection_draw_cmds(
                        cmds@.subrange(
                            n0 + cols_cmds_len(cs, cc),
                            n0 + cols_cmds_len(cs, cc + 1),
                        ),
                        #[trigger] cs[cc],
                        perspective_matrix,
                        camera_matrix,
                        kind0,
                    ),
            decreases cs.len() - c,
        {
            proof {
                lemma_cols_cmds_len_mono(cs, c as int);
            }
            let mut sub = collection_draw_cmds(
                &self.collections[c],
                perspective_matrix,
                camera_matrix,
                self.index_kind,
            );
            let ghost pre = cmds@;
            let ghost subg = sub@;
            cmds.append(&mut sub);
            proof {
                assert(cmds@ == pre + subg);
                assert forall|cc: int| 0 <= cc < c + 1 implies is_collection_draw_cmds(
                    cmds@.subrange(n0 + cols_cmds_len(cs, cc), n0 + cols_cmds_len(cs, cc + 1)),
                    #[trigger] cs[cc],
                    perspective_matrix,
                    camera_matrix,
                    kind0,
                ) by {
                    lemma_cols_cmds_len_mono(cs, cc);
                    if cc < c {
                        lemma_cols_cmds_len_mono_range(cs, cc + 1, c as int);
                        assert(cmds@.subrange(
                            n0 + cols_cmds_len(cs, cc),
                            n0 + cols_cmds_len(cs, cc + 1),
                        ) =~= pre.subrange(
                            n0 + cols_cmds_len(cs, cc),
                            n0 + cols_cmds_len(cs, cc + 1),
                        ));
                    } else {
                        assert(cmds@.subrange(
                            n0 + cols_cmds_len(cs, cc),
                            n0 + cols_cmds_len(cs, cc + 1),
                        ) =~= subg);
                    }
                }
                assert(cmds@.subrange(0, n0) =~= pre.subrange(0, n0));
            }
            c += 1;
        }
        proof {
            lemma_cols_cmds_len_mono(cs, cs.len() as int);
            let tail = cmds@.skip(n0);
            assert(tail.len() == cols_cmds_len(cs, cs.len() as int));
            assert forall|cc: int| 0 <= cc < cs.len() implies is_collection_draw_cmds(
                tail.subrange(cols_cmds_len(cs, cc), cols_cmds_len(cs, cc + 1)),
                #[trigger] cs[cc],
                perspective_matrix,
                camera_matrix,
                kind0,
            ) by {
                lemma_cols_cmds_len_mono(cs, cc);
                lemma_cols_cmds_len_mono_range(cs, cc + 1, cs.len() as int);
                assert(tail.subrange(cols_cmds_len(cs, cc), cols_cmds_len(cs, cc + 1))
                    =~= cmds@.subrange(n0 + cols_cmds_len(cs, cc), n0 + cols_cmds_len(cs, cc + 1)));
            }
        }
        cmds
    }
}

/// Two models that differ at most in their transform list.
pub open spec fn same_model_except_matrix(m1: Model, m2: Model) -> bool {
    &&& m2.colors@ == m1.colors@
    &&& m2.array == m1.array
    &&& m2.buffer == m1.buffer
    &&& m2.buffer_size == m1.buffer_size
    &&& m2.count == m1.count
    &&& m2.verts@ == m1.verts@
}

/// Command counts of collection prefixes are ordered between two bounds.
proof fn lemma_cols_cmds_len_mono_range(cs: Seq<Collection>, m: int, n: int)
    requires
        0 <= m <= n <= cs.len(),
    ensures
        cols_cmds_len(cs, m) <= cols_cmds_len(cs, n),
    decreases n - m,
{
    if m < n {
        lemma_cols_cmds_len_mono_range(cs, m + 1, n);
        lemma_cols_cmds_len_mono(cs, m + 1);
    }
}

/// After removing the only entry with a given id, lookup for that id
/// fails.
proof fn lemma_find_model_unique_removed(ms: Seq<(usize, Model)>, j: int, id: usize)
    requires
        0 <= j < ms.len(),
        ms[j].0 == id,
        forall|a: int, b: int| 0 <= a < b < ms.len() ==> (#[trigger] ms[a]).0 != (#[trigger] ms[b]).0,
    ensures
        find_model(ms.remove(j), id) is None,
{
    lemma_find_model_absent(ms.remove(j), id);
}

/// Lookup fails exactly when no entry carries the id.
proof fn lemma_find_model_absent(ms: Seq<(usize, Model)>, id: usize)
    requires
        forall|a: int| 0 <= a < ms.len() ==> (#[trigger] ms[a]).0 != id,
    ensures
        find_model(ms, id) is None,
    decreases ms.len(),
{
    if ms.len() > 0 {
        assert(forall|a: int|
            0 <= a < ms.drop_first().len() ==> (#[trigger] ms.drop_first()[a]).0 != id);
        lemma_find_model_absent(ms.drop_first(), id);
    }
}

/// Emits the draw commands of one collection.
fn collection_draw_cmds(c: &Collection, persp: Mat4, cam: Mat4, kind: IndexKind) -> (out: Vec<
    GpuCommand,
>)
    ensures
        is_collection_draw_cmds(out@, *c, persp, cam, kind),
        out@.len() == 3 + 4 * c.models@.len(),
{
    let mut out: Vec<GpuCommand> = Vec::new();
    out.push(GpuCommand::UseProgram { program: c.program });
    out.push(GpuCommand::SetPerspective { program: c.program, matrix: persp });
    out.push(GpuCommand::SetCamera { program: c.program, matrix: cam });
    let mut k: usize = 0;
    while k < c.models.len()
        invariant
            k <= c.models@.len(),
            out@.len() == 3 + 4 * k,
            out@[0] matches GpuCommand::UseProgram { program } && program == c.program,
            out@[1] matches GpuCommand::SetPerspective { program: p, matrix } && p == c.program
                && matrix == persp,
            out@[2] matches GpuCommand::SetCamera { program: p, matrix } && p == c.program
                && matrix == cam,
            forall|kk: int|
                0 <= kk < k ==> is_model_draw_cmds(
                    out@.subrange(3 + 4 * kk, 7 + 4 * kk),
                    c.program,
                    (#[trigger] c.models@[kk]).1,
                    kind,
                ),
        decreases c.models.len() - k,
    {
        let ghost pre = out@;
        let m = &c.models[k].1;
        let mats2 = copy_mats(&m.matrix);
        let cols2 = copy_colors(&m.colors);
        let ghost mats2g = mats2@;
        let ghost cols2g = cols2@;
        out.push(GpuCommand::BindVertexArray { array: m.array });
        out.push(GpuCommand::SetModelMatrices { program: c.program, matrices: mats2 });
        out.push(GpuCommand::SetModelColors { program: c.program, colors: cols2 });
        out.push(GpuCommand::DrawElements { count: m.count, kind });
        proof {
            assert forall|kk: int| 0 <= kk < k + 1 implies is_model_draw_cmds(
                out@.subrange(3 + 4 * kk, 7 + 4 * kk),
                c.program,
                (#[trigger] c.models@[kk]).1,
                kind,
            ) by {
                if kk < k {
                    assert(out@.subrange(3 + 4 * kk, 7 + 4 * kk) =~= pre.subrange(
                        3 + 4 * kk,
                        7 + 4 * kk,
                    ));
                } else {
                    reveal(is_model_draw_cmds);
                    let s = out@.subrange(3 + 4 * kk, 7 + 4 * kk);
                    assert(s.len() == 4);
                    assert(s[0] == out@[3 + 4 * kk]);
                    assert(s[1] == out@[4 + 4 * kk]);
                    assert(s[2] == out@[5 + 4 * kk]);
                    assert(s[3] == out@[6 + 4 * kk]);
                    assert(s[0] matches GpuCommand::BindVertexArray { array } && array
                        == c.models@[kk].1.array);
                    assert(s[1] matches GpuCommand::SetModelMatrices { program, matrices }
                        && program == c.program && matrices@ == c.models@[kk].1.matrix@);
                    assert(s[2] matches GpuCommand::SetModelColors { program, colors } && program
                        == c.program && colors@ == c.models@[kk].1.colors@);
                    assert(s[3] matches GpuCommand::DrawElements { count, kind: kd } && count
                        == c.models@[kk].1.count && kd == kind);
                }
            }
        }
        k += 1;
    }
    proof {
        reveal(is_collection_draw_cmds);
    }
    out
}

/// All vertices of the first `n` parts, in order.
pub open spec fn verts_of_parts(parts: Seq<Vec<Vertex>>, n: int) -> Seq<Vertex>
    decreases n,
{
    if n <= 0 {
        Seq::empty()
    } else {
        verts_of_parts(parts, n - 1) + parts[n - 1]@
    }
}

/// Packed vertex bytes take exactly 36 bytes per vertex.
pub proof fn lemma_verts_bytes_len(vs: Seq<Vertex>, n: int)
    requires
        0 <= n <= vs.len(),
    ensures
        verts_bytes(vs, n).len() == 36 * n,
    decreases n,
{
    if n > 0 {
        lemma_verts_bytes_len(vs, n - 1);
    }
}

/// Whole quads per part give whole quads in total, and the total length
/// is the sum of the part lengths.
proof fn lemma_verts_of_parts_quads(parts: Seq<Vec<Vertex>>, n: int)
    requires
        0 <= n <= parts.len(),
        forall|i: int| 0 <= i < parts.len() ==> (#[trigger] parts[i])@.len() % 4 == 0,
    ensures
        verts_of_parts(parts, n).len() % 4 == 0,
        verts_of_parts(parts, n).len() <= verts_of_parts(parts, parts.len() as int).len(),
    decreases parts.len() - n,
{
    lemma_verts_of_parts_mod(parts, n);
    if n < parts.len() {
        lemma_verts_of_parts_quads(parts, n + 1);
        assert(verts_of_parts(parts, n + 1) == verts_of_parts(parts, n) + parts[n]@);
    }
}

/// Length of a parts prefix is a multiple of four.
proof fn lemma_verts_of_parts_mod(parts: Seq<Vec<Vertex>>, n: int)
    requires
        0 <= n <= parts.len(),
        forall|i: int| 0 <= i < parts.len() ==> (#[trigger] parts[i])@.len() % 4 == 0,
    ensures
        verts_of_parts(parts, n).len() % 4 == 0,
    decreases n,
{
    if n > 0 {
        lemma_verts_of_parts_mod(parts, n - 1);
    }
}

/// Every vertex of a parts prefix is well-formed when every part's
/// vertices are.
proof fn lemma_verts_of_parts_wf(parts: Seq<Vec<Vertex>>, n: int)
    requires
        0 <= n <= parts.len(),
        forall|i: int, j: int|
            0 <= i < parts.len() && 0 <= j < parts[i]@.len() ==> wf_vertex(
                #[trigger] parts[i]@[j],
            ),
    ensures
        forall|k: int|
            0 <= k < verts_of_parts(parts, n).len() ==> wf_vertex(
                #[trigger] verts_of_parts(parts, n)[k],
            ),
    decreases n,
{
    if n > 0 {
        lemma_verts_of_parts_wf(parts, n - 1);
        let pre = verts_of_parts(parts, n - 1);
        assert forall|k: int| 0 <= k < verts_of_parts(parts, n).len() implies wf_vertex(
            #[trigger] verts_of_parts(parts, n)[k],
        ) by {
            if k < pre.len() {
                assert(verts_of_parts(parts, n)[k] == pre[k]);
            } else {
                assert(verts_of_parts(parts, n)[k] == parts[n - 1]@[k - pre.len()]);
            }
        }
    }
}

/// The four draw commands of one model: bind its vertex array, upload
/// its per-part transforms, upload its per-part colours, then one
/// indexed draw.  The uniform uploads stand strictly before the draw.
#[verifier::opaque]
pub open spec fn is_model_draw_cmds(
    s: Seq<GpuCommand>,
    program: u64,
    m: Model,
    kind: IndexKind,
) -> bool {
    &&& s.len() == 4
    &&& s[0] matches GpuCommand::BindVertexArray { array } && array == m.array
    &&& s[1] matches GpuCommand::SetModelMatrices { program: p, matrices } && p == program
        && matrices@ == m.matrix@
    &&& s[2] matches GpuCommand::SetModelColors { program: p, colors } && p == program && colors@
        == m.colors@
    &&& s[3] matches GpuCommand::DrawElements { count, kind: k } && count == m.count && k == kind
}

/// The draw commands of one collection: select its program, upload the
/// two camera matrices, then the four commands of each live model.
#[verifier::opaque]
pub open spec fn is_collection_draw_cmds(
    s: Seq<GpuCommand>,
    c: Collection,
    persp: Mat4,
    cam: Mat4,
    kind: IndexKind,
) -> bool {
    &&& s.len() == 3 + 4 * c.models@.len()
    &&& s[0] matches GpuCommand::UseProgram { program } && program == c.program
    &&& s[1] matches GpuCommand::SetPerspective { program: p, matrix } && p == c.program && matrix
        == persp
    &&& s[2] matches GpuCommand::SetCamera { program: p, matrix } && p == c.program && matrix
        == cam
    &&& forall|k: int|
        0 <= k < c.models@.len() ==> is_model_draw_cmds(
            s.subrange(3 + 4 * k, 7 + 4 * k),
            c.program,
            (#[trigger] c.models@[k]).1,
            kind,
        )
}

/// Total number of draw commands for the first `n` collections.
pub open spec fn cols_cmds_len(cs: Seq<Collection>, n: int) -> int
    decreases n,
{
    if n <= 0 {
        0
    } else {
        cols_cmds_len(cs, n - 1) + 3 + 4 * cs[n - 1].models@.len()
    }
}

/// `s` is exactly the draw-command stream of the collections `cs`, in
/// registration order.
pub open spec fn is_draw_cmds(
    s: Seq<GpuCommand>,
    cs: Seq<Collection>,
    persp: Mat4,
    cam: Mat4,
    kind: IndexKind,
) -> bool {
    &&& s.len() == cols_cmds_len(cs, cs.len() as int)
    &&& forall|c: int|
        0 <= c < cs.len() ==> is_collection_draw_cmds(
            s.subrange(cols_cmds_len(cs, c), cols_cmds_len(cs, c + 1)),
            #[trigger] cs[c],
            persp,
            cam,
            kind,
        )
}

/// Command counts of collection prefixes grow monotonically.
pub proof fn lemma_cols_cmds_len_mono(cs: Seq<Collection>, n: int)
    requires
        0 <= n <= cs.len(),
    ensures
        0 <= cols_cmds_len(cs, n),
        forall|m: int| 0 <= m <= n ==> cols_cmds_len(cs, m) <= cols_cmds_len(cs, n),
    decreases n,
{
    if n > 0 {
        lemma_cols_cmds_len_mono(cs, n - 1);
    }
}

/// Copies a transform list.
fn copy_mats(v: &Vec<Mat4>) -> (out: Vec<Mat4>)
    ensures
        out@ == v@,
{
    let mut out: Vec<Mat4> = Vec::new();
    let mut i: usize = 0;
    while i < v.len()
        invariant
            i <= v.len(),
            out@ == v@.subrange(0, i as int),
        decreases v.len() - i,
    {
        out.push(v[i]);
        proof {
            assert(out@ =~= v@.subrange(0, i + 1));
        }
        i += 1;
    }
    proof {
        assert(out@ =~= v@);
    }
    out
}

/// Copies a colour list.
fn copy_colors(v: &Vec<Rgba>) -> (out: Vec<Rgba>)
    ensures
        out@ == v@,
{
    let mut out: Vec<Rgba> = Vec::new();
    let mut i: usize = 0;
    while i < v.len()
        invariant
            i <= v.len(),
            out@ == v@.subrange(0, i as int),
        decreases v.len() - i,
    {
        out.push(v[i]);
        proof {
            assert(out@ =~= v@.subrange(0, i + 1));
        }
        i += 1;
    }
    proof {
        assert(out@ =~= v@);
    }
    out
}

/// A model appended under a fresh id is found under that id.
pub proof fn lemma_find_model_pushed(ms: Seq<(usize, Model)>, ms2: Seq<(usize, Model)>, id: usize)
    requires
        ms2.len() == ms.len() + 1,
        ms2.subrange(0, ms.len() as int) == ms,
        ms2.last().0 == id,
        forall|i: int| 0 <= i < ms.len() ==> (#[trigger] ms[i]).0 != id,
    ensures
        find_model(ms2, id) == Some(ms2.last().1),
    decreases ms.len(),
{
    if ms.len() == 0 {
        assert(ms2[0] == ms2.last());
    } else {
        assert(ms2[0] == ms[0]) by {
            assert(ms2.subrange(0, ms.len() as int)[0] == ms2[0]);
        }
        assert(ms2.drop_first().subrange(0, ms.drop_first().len() as int) =~= ms.drop_first());
        assert(ms2.drop_first().last() == ms2.last());
        lemma_find_model_pushed(ms.drop_first(), ms2.drop_first(), id);
    }
}

/// Unfolds one step of `find_model` on a suffix: the head either matches
/// or the search continues one element later.
proof fn lemma_find_model_skip_head(ms: Seq<(usize, Model)>, j: int, id: usize)
    requires
        0 <= j < ms.len(),
    ensures
        ms[j].0 == id ==> find_model(ms.skip(j), id) == Some(ms[j].1),
        ms[j].0 != id ==> find_model(ms.skip(j), id) == find_model(ms.skip(j + 1), id),
{
    let s = ms.skip(j);
    assert(s.len() > 0);
    assert(s[0] == ms[j]);
    if ms[j].0 != id {
        assert(s.drop_first() =~= ms.skip(j + 1));
    }
}

} // verus!
