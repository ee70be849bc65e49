use steven::atlas::AtlasAllocator;
use steven::cache::TextureCache;
use steven::commands::{GpuCommand, IndexKind};
use steven::model::{generate_element_buffer, CollectionKey, Manager, Mat4, Vertex};
use steven::render::Renderer;
use steven::sun::SunModel;
use steven::texture::{Frac, RelRect, Texture};

fn overlaps(a: &steven::atlas::Rect, b: &steven::atlas::Rect) -> bool {
    !(a.x + a.width <= b.x || b.x + b.width <= a.x || a.y + a.height <= b.y
        || b.y + b.height <= a.y)
}

#[test]
fn atlas_blocks_never_overlap() {
    let mut page = AtlasAllocator::new(64, 64);
    let mut rects = Vec::new();
    for (w, h) in [(16u32, 16u32), (32, 8), (8, 32), (16, 16), (64, 8), (8, 8)] {
        if let Some(r) = page.add(w, h) {
            assert_eq!(r.width, w);
            assert_eq!(r.height, h);
            assert!(r.x + r.width <= 64 && r.y + r.height <= 64);
            rects.push(r);
        }
    }
    assert!(rects.len() >= 4);
    for i in 0..rects.len() {
        for j in 0..rects.len() {
            if i != j {
                assert!(!overlaps(&rects[i], &rects[j]));
            }
        }
    }
}

#[test]
fn atlas_rejects_oversized_block() {
    let mut page = AtlasAllocator::new(32, 32);
    assert!(page.add(33, 1).is_none());
    assert!(page.add(32, 32).is_some());
    assert!(page.add(1, 1).is_none());
}

#[test]
fn relative_views_compose_associatively() {
    let t = Texture::new(String::from("a:b"), 0, 10, 20, 256, 128);
    let r1 = RelRect {
        x: Frac { num: 1, den: 4 },
        y: Frac { num: 1, den: 2 },
        w: Frac { num: 1, den: 2 },
        h: Frac { num: 1, den: 2 },
    };
    let r2 = RelRect {
        x: Frac { num: 1, den: 2 },
        y: Frac { num: 0, den: 1 },
        w: Frac { num: 1, den: 2 },
        h: Frac { num: 1, den: 1 },
    };
    let chained = t.relative(r1).relative(r2);
    // One algebraic composition: x = 1/4 + 1/2 * 1/2 = 1/2, w = 1/4.
    let single = t.relative(RelRect {
        x: Frac { num: 1, den: 2 },
        y: Frac { num: 1, den: 2 },
        w: Frac { num: 1, den: 4 },
        h: Frac { num: 1, den: 2 },
    });
    assert_eq!(chained.get_x(), single.get_x());
    assert_eq!(chained.get_y(), single.get_y());
    assert_eq!(chained.get_width(), single.get_width());
    assert_eq!(chained.get_height(), single.get_height());
    assert_eq!(chained.get_x(), 10 + 128);
    assert_eq!(chained.get_width(), 64);
}

#[test]
fn relative_view_stays_inside_base() {
    let t = Texture::new(String::from("a:c"), 0, 100, 100, 64, 64);
    let sub = t.relative(RelRect {
        x: Frac { num: 3, den: 4 },
        y: Frac { num: 3, den: 4 },
        w: Frac { num: 1, den: 4 },
        h: Frac { num: 1, den: 4 },
    });
    assert_eq!(sub.get_x(), 148);
    assert_eq!(sub.get_y(), 148);
    assert_eq!(sub.get_width(), 16);
    assert_eq!(sub.get_height(), 16);
    assert!(sub.get_x() + sub.get_width() <= 164);
}

#[test]
fn get_defaults_to_minecraft_namespace() {
    let mut cache = TextureCache::new();
    let t = cache.register("minecraft", "stone", 4, 4, vec![0u8; 64]);
    let via_short = cache.get("stone").expect("short name resolves");
    let via_full = cache.get("minecraft:stone").expect("full name resolves");
    assert_eq!(via_short.x, t.x);
    assert_eq!(via_short.y, t.y);
    assert_eq!(via_full.x, t.x);
    assert_eq!(via_full.y, t.y);
    assert_eq!(via_short.atlas, via_full.atlas);
}

#[test]
fn load_of_unregistered_name_gives_missing_placeholder() {
    let mut cache = TextureCache::new();
    let miss = cache.get("steven:missing_texture").expect("placeholder exists");
    let t = cache.load("does_not_exist");
    assert_eq!(t.get_x(), miss.get_x());
    assert_eq!(t.get_y(), miss.get_y());
    assert_eq!(t.get_width(), miss.get_width());
    assert_eq!(t.get_height(), miss.get_height());
    assert_eq!(t.get_width(), 2);
    assert_eq!(t.get_height(), 2);
    // The name is now registered and keeps resolving to the same rect.
    let again = cache.get("does_not_exist").expect("registered by load");
    assert_eq!(again.get_x(), miss.get_x());
}

#[test]
fn element_buffer_writes_quad_pattern() {
    let (data, kind) = generate_element_buffer(12);
    assert_eq!(kind, IndexKind::Short);
    let expect: Vec<u8> = [0u16, 1, 2, 2, 1, 3, 4, 5, 6, 6, 5, 7]
        .iter()
        .flat_map(|v| v.to_le_bytes())
        .collect();
    assert_eq!(data, expect);
}

#[test]
fn element_buffer_switches_to_wide_indices() {
    let (_, kind) = generate_element_buffer(6 * 16384);
    assert_eq!(kind, IndexKind::Short);
    let (data, kind) = generate_element_buffer(6 * 16385);
    assert_eq!(kind, IndexKind::Wide);
    // First quad, now four bytes per index.
    assert_eq!(&data[0..8], &[0, 0, 0, 0, 1, 0, 0, 0]);
}

fn quad(tex: &Texture) -> Vec<Vertex> {
    let corner = |tx: u32, ty: u32| Vertex {
        x: 0,
        y: 0,
        z: 0,
        texture: tex.clone(),
        texture_x: Frac { num: tx, den: 1 },
        texture_y: Frac { num: ty, den: 1 },
        r: 255,
        g: 255,
        b: 255,
        a: 255,
        id: 0,
    };
    vec![corner(0, 0), corner(1, 0), corner(0, 1), corner(1, 1)]
}

#[test]
fn create_model_counts_six_indices_per_quad() {
    let mut m = Manager::new();
    let tex = Texture::new(String::from("a:t"), 0, 0, 0, 16, 16);
    let key = m.create_model(CollectionKey(0), vec![quad(&tex), quad(&tex)]);
    let model = m.get_model(key).expect("model exists");
    assert_eq!(model.count, 2 * 6);
    assert_eq!(model.matrix.len(), 2);
    assert_eq!(model.colors.len(), 2);
}

#[test]
fn shared_index_buffer_grows_monotonically() {
    let mut m = Manager::new();
    let tex = Texture::new(String::from("a:t"), 0, 0, 0, 16, 16);
    let k1 = m.create_model(CollectionKey(0), vec![quad(&tex), quad(&tex)]);
    let max1 = m.max_index;
    let _k2 = m.create_model(CollectionKey(0), vec![quad(&tex)]);
    let max2 = m.max_index;
    let _k3 = m.create_model(CollectionKey(0), vec![quad(&tex), quad(&tex), quad(&tex)]);
    let max3 = m.max_index;
    assert_eq!(max1, 12);
    assert_eq!(max2, 12);
    assert_eq!(max3, 18);
    m.remove_model(k1);
    assert_eq!(m.max_index, 18);
}

#[test]
fn draw_uploads_each_models_uniforms_before_its_draw() {
    let mut m = Manager::new();
    let tex = Texture::new(String::from("a:t"), 0, 0, 0, 16, 16);
    let ka = m.create_model(CollectionKey(0), vec![quad(&tex)]);
    let kb = m.create_model(CollectionKey(0), vec![quad(&tex)]);
    let mut ma = Mat4::identity();
    ma.m[12] = 7;
    let mut mb = Mat4::identity();
    mb.m[12] = 9;
    assert!(m.set_model_matrix(ka, 0, ma));
    assert!(m.set_model_matrix(kb, 0, mb));
    let cmds = m.draw(Mat4::identity(), Mat4::identity());
    // Record the positions of uniform uploads and draws per model.
    let mut upload_positions = Vec::new();
    let mut draw_positions = Vec::new();
    for (i, c) in cmds.iter().enumerate() {
        match c {
            GpuCommand::SetModelMatrices { matrices, .. } => {
                upload_positions.push((i, matrices[0].m[12]));
            }
            GpuCommand::DrawElements { .. } => draw_positions.push(i),
            _ => {}
        }
    }
    assert_eq!(upload_positions.len(), 2);
    assert_eq!(draw_positions.len(), 2);
    let uploaded: Vec<u32> = upload_positions.iter().map(|p| p.1).collect();
    assert!(uploaded.contains(&7) && uploaded.contains(&9));
    // Each model's transform upload strictly precedes its own draw call.
    assert!(upload_positions[0].0 < draw_positions[0]);
    assert!(upload_positions[1].0 < draw_positions[1]);
}

#[test]
fn resize_recreates_both_framebuffers_with_fresh_handles() {
    let mut r = Renderer::new();
    r.update_camera(854, 480, Mat4::identity(), Mat4::identity());
    let t1 = r.trans.expect("targets exist");
    // Same size: nothing is rebuilt.
    r.update_camera(854, 480, Mat4::identity(), Mat4::identity());
    let t1b = r.trans.expect("targets exist");
    assert_eq!(t1.main, t1b.main);
    assert_eq!(t1.fb_color, t1b.fb_color);
    // New size: every object handle is fresh.
    r.update_camera(1280, 720, Mat4::identity(), Mat4::identity());
    let t2 = r.trans.expect("targets exist");
    let olds = [t1.main, t1.fb_color, t1.fb_depth, t1.trans, t1.trans_depth, t1.array, t1.buffer];
    let news = [t2.main, t2.fb_color, t2.fb_depth, t2.trans, t2.trans_depth, t2.array, t2.buffer];
    for o in olds.iter() {
        assert!(!news.contains(o));
    }
    // The old attachments are deleted and never bound again.
    let cmds = r.tick();
    for c in cmds.iter() {
        match c {
            GpuCommand::BindFramebuffer { fb } => {
                assert!(*fb == t2.main || *fb == t2.trans);
            }
            GpuCommand::BindTexture { tex } => assert_eq!(*tex, t2.fb_color),
            _ => {}
        }
    }
}

#[test]
fn frame_orders_uploads_opaque_transparent_resolve() {
    let mut r = Renderer::new();
    r.update_camera(854, 480, Mat4::identity(), Mat4::identity());
    let mut sun = SunModel::new(&mut r);
    assert!(sun.tick(&mut r, Mat4::identity()));
    let t = r.trans.expect("targets exist");
    let cmds = r.tick();
    let bind_main = cmds
        .iter()
        .position(|c| matches!(c, GpuCommand::BindFramebuffer { fb } if *fb == t.main))
        .expect("opaque target bound");
    let first_draw = cmds
        .iter()
        .position(|c| matches!(c, GpuCommand::DrawElements { .. }))
        .expect("moon drawn");
    let bind_trans = cmds
        .iter()
        .position(|c| matches!(c, GpuCommand::BindFramebuffer { fb } if *fb == t.trans))
        .expect("accumulation target bound");
    let resolve = cmds
        .iter()
        .position(|c| matches!(c, GpuCommand::DrawArrays { count: 6 }))
        .expect("resolve drawn");
    assert!(bind_main < first_draw);
    assert!(first_draw < bind_trans);
    assert!(bind_trans < resolve);
    sun.remove(&mut r);
    assert!(!sun.tick(&mut r, Mat4::identity()));
}

#[test]
fn moon_model_is_one_quad() {
    let mut r = Renderer::new();
    let sun = SunModel::new(&mut r);
    let model = r.model.get_model(sun.moon).expect("moon exists");
    assert_eq!(model.count, 6);
    assert_eq!(model.verts.len(), 4);
}

#[test]
fn little_endian_byte_writers_match_manual_encoding() {
    let mut out = Vec::new();
    steven::bytes::put_u16_le(&mut out, 0x1234);
    steven::bytes::put_u32_le(&mut out, 0x89ab_cdef);
    steven::bytes::put_u8(&mut out, 0x7f);
    assert_eq!(out, vec![0x34, 0x12, 0xef, 0xcd, 0xab, 0x89, 0x7f]);
}

#[test]
fn register_queues_exactly_one_upload() {
    let mut cache = TextureCache::new();
    let before = cache.pending.len();
    let t = cache.register("a", "b", 8, 8, vec![1u8; 256]);
    assert_eq!(cache.pending.len(), before + 1);
    let up = cache.pending.last().unwrap();
    assert_eq!(up.page, t.atlas);
    assert_eq!(up.rect.width, 8);
    let cmds = cache.flush_uploads();
    assert_eq!(cache.pending.len(), 0);
    assert!(cmds
        .iter()
        .any(|c| matches!(c, GpuCommand::TexSubImage { width: 8, height: 8, .. })));
}

#[test]
fn version_counts_registrations() {
    let mut cache = TextureCache::new();
    let v0 = cache.version;
    cache.register("a", "b", 4, 4, vec![0u8; 64]);
    assert_eq!(cache.version, v0 + 1);
    cache.load("a:b");
    assert_eq!(cache.version, v0 + 1);
    cache.load("fresh_name");
    assert_eq!(cache.version, v0 + 2);
}
