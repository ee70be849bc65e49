//! The shared texture cache.
//!
//! Owns every atlas page, the name-to-texture table, the queue of pixel
//! uploads not yet pushed to the GPU, and a free list of reusable
//! "dynamic" texture slots.  A name without a namespace defaults to the
//! `minecraft` namespace; looking up an unregistered name never fails,
//! it resolves to the reserved "missing texture" placeholder instead.

use vstd::prelude::*;
use vstd::string::StrSliceExecFns;
use vstd::string::StringExecFns;
use crate::atlas::{AtlasAllocator, Rect};
use crate::commands::GpuCommand;
use crate::texture::{Frac, RelRect, Texture};

verus! {

/// Side length of every atlas page, in pixels.
pub const ATLAS_SIZE: u32 = 1024;

/// One pixel payload waiting for the render thread.
#[derive(Debug)]
pub struct PendingUpload {
    /// Atlas page the pixels belong to.
    pub page: usize,
    /// Destination rectangle on that page.
    pub rect: Rect,
    /// Raw RGBA bytes, row major, top to bottom.
    pub bytes: Vec<u8>,
}

/// The texture stored under `name`, scanning from the front.
pub open spec fn spec_find(entries: Seq<(String, Texture)>, name: Seq<char>) -> Option<Texture>
    decreases entries.len(),
{
    if entries.len() == 0 {
        None
    } else if entries[0].0@ == name {
        Some(entries[0].1)
    } else {
        spec_find(entries.drop_first(), name)
    }
}

/// The name a lookup resolves: names without `:` get the legacy default
/// `minecraft` namespace, namespaced names stand as they are.
pub open spec fn full_name(name: Seq<char>) -> Seq<char> {
    if name.contains(':') {
        name
    } else {
        "minecraft:"@ + name
    }
}

/// A name without `:` always resolves exactly like the same name
/// prefixed with `minecraft:`.
pub proof fn lemma_default_namespace(name: Seq<char>, prefixed: Seq<char>)
    requires
        !name.contains(':'),
        prefixed == "minecraft:"@ + name,
    ensures
        full_name(name) == prefixed,
{
}

/// `i` is the first free slot whose footprint is exactly `w x h`.
pub open spec fn is_first_exact_slot(frees: Seq<Texture>, w: u32, h: u32, i: int) -> bool {
    &&& 0 <= i < frees.len()
    &&& frees[i].width == w && frees[i].height == h
    &&& forall|j: int|
        0 <= j < i ==> !((#[trigger] frees[j]).width == w && frees[j].height == h)
}

/// The slot at `i` can hold a `w x h` image.
pub open spec fn slot_fits(s: Texture, w: u32, h: u32) -> bool {
    s.width >= w && s.height >= h
}

/// `i` is the smallest (earliest on ties) free slot that can hold a
/// `w x h` image.
pub open spec fn is_best_fit_slot(frees: Seq<Texture>, w: u32, h: u32, i: int) -> bool {
    &&& 0 <= i < frees.len()
    &&& slot_fits(frees[i], w, h)
    &&& forall|j: int|
        0 <= j < i && slot_fits(#[trigger] frees[j], w, h) ==> frees[i].width * frees[i].height
            < frees[j].width * frees[j].height
    &&& forall|j: int|
        i < j < frees.len() && slot_fits(#[trigger] frees[j], w, h) ==> frees[i].width
            * frees[i].height <= frees[j].width * frees[j].height
}

/// Pushing a new entry changes lookups only for its own name, and only
/// when that name was absent.
proof fn lemma_find_push(entries: Seq<(String, Texture)>, e: (String, Texture), n: Seq<char>)
    ensures
        spec_find(entries.push(e), n) == (if spec_find(entries, n) is Some {
            spec_find(entries, n)
        } else if e.0@ == n {
            Some(e.1)
        } else {
            None
        }),
    decreases entries.len(),
{
    if entries.len() == 0 {
        assert(entries.push(e).drop_first() =~= entries);
        assert(entries.push(e)[0] == e);
    } else {
        assert(entries.push(e)[0] == entries[0]);
        assert(entries.push(e).drop_first() =~= entries.drop_first().push(e));
        lemma_find_push(entries.drop_first(), e, n);
    }
}

/// Replacing the entry at `j` by one with the same name changes lookups
/// only for names that resolved at or behind `j`; with unique names,
/// only for that name.
proof fn lemma_find_update(
    entries: Seq<(String, Texture)>,
    j: int,
    e: (String, Texture),
    n: Seq<char>,
)
    requires
        0 <= j < entries.len(),
        e.0@ == entries[j].0@,
        forall|a: int, b: int|
            0 <= a < b < entries.len() ==> (#[trigger] entries[a]).0@ != (
            #[trigger] entries[b]).0@,
    ensures
        n == entries[j].0@ ==> spec_find(entries.update(j, e), n) == Some(e.1),
        n != entries[j].0@ ==> spec_find(entries.update(j, e), n) == spec_find(entries, n),
    decreases entries.len(),
{
    if entries.len() > 0 {
        if j == 0 {
            assert(entries.update(j, e)[0] == e);
            assert(entries.update(j, e).drop_first() =~= entries.drop_first());
        } else {
            assert(entries.update(j, e)[0] == entries[0]);
            assert(entries.update(j, e).drop_first() =~= entries.drop_first().update(j - 1, e));
            lemma_find_update(entries.drop_first(), j - 1, e, n);
        }
    }
}

/// Removing the entry at `j` erases lookups for its name (when names
/// are unique) and leaves every other name alone.
proof fn lemma_find_remove(entries: Seq<(String, Texture)>, j: int, n: Seq<char>)
    requires
        0 <= j < entries.len(),
        forall|a: int, b: int|
            0 <= a < b < entries.len() ==> (#[trigger] entries[a]).0@ != (
            #[trigger] entries[b]).0@,
    ensures
        n == entries[j].0@ ==> spec_find(entries.remove(j), n) is None,
        n != entries[j].0@ ==> spec_find(entries.remove(j), n) == spec_find(entries, n),
    decreases entries.len(),
{
    if entries.len() > 0 {
        if j == 0 {
            assert(entries.remove(j) =~= entries.drop_first());
            if n == entries[0].0@ {
                lemma_find_absent(entries.drop_first(), n);
            }
        } else {
            assert(entries.remove(j)[0] == entries[0]);
            assert(entries.remove(j).drop_first() =~= entries.drop_first().remove(j - 1));
            lemma_find_remove(entries.drop_first(), j - 1, n);
        }
    }
}

/// A name that no entry carries is not found.
proof fn lemma_find_absent(entries: Seq<(String, Texture)>, n: Seq<char>)
    requires
        forall|a: int| 0 <= a < entries.len() ==> (#[trigger] entries[a]).0@ != n,
    ensures
        spec_find(entries, n) is None,
    decreases entries.len(),
{
    if entries.len() > 0 {
        assert(forall|a: int|
            0 <= a < entries.drop_first().len() ==> (#[trigger] entries.drop_first()[a]).0@ != n);
        lemma_find_absent(entries.drop_first(), n);
    }
}

/// Unfolds one scanning step.
proof fn lemma_find_skip_head(entries: Seq<(String, Texture)>, j: int, n: Seq<char>)
    requires
        0 <= j < entries.len(),
    ensures
        entries[j].0@ == n ==> spec_find(entries.skip(j), n) == Some(entries[j].1),
        entries[j].0@ != n ==> spec_find(entries.skip(j), n) == spec_find(entries.skip(j + 1), n),
{
    let s = entries.skip(j);
    assert(s.len() > 0);
    assert(s[0] == entries[j]);
    if entries[j].0@ != n {
        assert(s.drop_first() =~= entries.skip(j + 1));
    }
}

/// Index of the entry holding `name`, by linear scan.
fn find_entry_index(entries: &Vec<(String, Texture)>, name: &String) -> (r: Option<usize>)
    ensures
        r matches Some(j) ==> j < entries@.len() && entries@[j as int].0@ == name@ && spec_find(
            entries@,
            name@,
        ) == Some(entries@[j as int].1),
        r is None ==> spec_find(entries@, name@) is None,
{
    let ghost es = entries@;
    proof {
        assert(es.skip(0) =~= es);
    }
    let mut j: usize = 0;
    while j < entries.len()
        invariant
            j <= es.len(),
            es == entries@,
            spec_find(es, name@) == spec_find(es.skip(j as int), name@),
        decreases es.len() - j,
    {
        if entries[j].0.eq(name) {
            proof {
                lemma_find_skip_head(es, j as int, name@);
            }
            return Some(j);
        }
        proof {
            lemma_find_skip_head(es, j as int, name@);
        }
        j += 1;
    }
    proof {
        assert(es.skip(j as int).len() == 0);
    }
    None
}

/// Whether the name carries an explicit namespace.
fn contains_colon(s: &str) -> (r: bool)
    ensures
        r == s@.contains(':'),
{
    let n = s.unicode_len();
    let mut i: usize = 0;
    while i < n
        invariant
            i <= n,
            n == s@.len(),
            forall|k: int| 0 <= k < i ==> s@[k] != ':',
        decreases n - i,
    {
        if s.get_char(i) == ':' {
            proof {
                assert(s@[i as int] == ':');
            }
            return true;
        }
        i += 1;
    }
    proof {
        assert(forall|k: int| 0 <= k < s@.len() ==> s@[k] != ':');
        if s@.contains(':') {
            let k = choose|k: int| 0 <= k < s@.len() && s@[k] == ':';
            assert(s@[k] != ':');
        }
    }
    false
}

/// Resolves a possibly namespaced name to its full form.
fn resolve_name(name: &str) -> (r: String)
    ensures
        r@ == full_name(name@),
{
    if contains_colon(name) {
        name.to_owned()
    } else {
        let r = String::from_str("minecraft:").concat(name);
        proof {
            reveal_strlit("minecraft:");
        }
        r
    }
}

/// Owns the atlas pages, the texture name table, the pending pixel
/// uploads and the free dynamic slots.
pub struct TextureCache {
    /// Full name to texture.  Names are unique.
    pub entries: Vec<(String, Texture)>,
    /// The atlas pages, each `ATLAS_SIZE` square.
    pub pages: Vec<AtlasAllocator>,
    /// Pixel payloads queued for the render thread.
    pub pending: Vec<PendingUpload>,
    /// Live dynamic textures, full name to their slot footprint.
    pub dynamics: Vec<(String, Texture)>,
    /// Released dynamic slots available for reuse.
    pub free_dynamics: Vec<Texture>,
    /// Grows by one whenever the registered texture set changes.
    pub version: u64,
}

/// A slot or entry texture lies on a page and fits the vertex encoding.
pub open spec fn wf_cache_texture(t: Texture) -> bool {
    &&& t.wf()
    &&& t.x + t.width <= ATLAS_SIZE
    &&& t.y + t.height <= ATLAS_SIZE
    &&& t.width >= 1
    &&& t.height >= 1
}

impl TextureCache {
    /// The full name of the reserved placeholder texture.
    pub open spec fn missing_name() -> Seq<char> {
        "steven:missing_texture"@
    }

    pub open spec fn wf(self) -> bool {
        &&& forall|a: int, b: int|
            0 <= a < b < self.entries@.len() ==> (#[trigger] self.entries@[a]).0@ != (
            #[trigger] self.entries@[b]).0@
        &&& forall|i: int|
            0 <= i < self.entries@.len() ==> wf_cache_texture((#[trigger] self.entries@[i]).1)
        &&& forall|i: int|
            0 <= i < self.pages@.len() ==> (#[trigger] self.pages@[i]).wf()
                && self.pages@[i].spec_width() == ATLAS_SIZE && self.pages@[i].spec_height()
                == ATLAS_SIZE
        &&& forall|i: int|
            0 <= i < self.free_dynamics@.len() ==> wf_cache_texture(
                #[trigger] self.free_dynamics@[i],
            ) && self.free_dynamics@[i].rel is None
        &&& forall|a: int, b: int|
            0 <= a < b < self.dynamics@.len() ==> (#[trigger] self.dynamics@[a]).0@ != (
            #[trigger] self.dynamics@[b]).0@
        &&& spec_find(self.entries@, Self::missing_name()) is Some
    }

    /// A fresh cache holding the two built-in textures: the 2x2
    /// black/magenta "missing" checkerboard and the 1x1 solid white.
    pub fn new() -> (c: TextureCache)
        ensures
            c.wf(),
            spec_find(c.entries@, TextureCache::missing_name()) is Some,
            spec_find(c.entries@, "steven:solid"@) is Some,
            c.free_dynamics@.len() == 0,
            c.dynamics@.len() == 0,
    {
        let mut c = TextureCache {
            entries: Vec::new(),
            pages: Vec::new(),
            pending: Vec::new(),
            dynamics: Vec::new(),
            free_dynamics: Vec::new(),
            version: 0,
        };
        proof {
            reveal_strlit("steven");
            reveal_strlit("missing_texture");
            reveal_strlit("solid");
            reveal_strlit(":");
            reveal_strlit("steven:missing_texture");
            reveal_strlit("steven:solid");
        }
        let missing_bytes: Vec<u8> = vec![
            0, 0, 0, 255, 255, 0, 255, 255, 255, 0, 255, 255, 0, 0, 0, 255,
        ];
        let t = c.register_inner("steven", "missing_texture", 2, 2, missing_bytes);
        let solid_bytes: Vec<u8> = vec![255, 255, 255, 255];
        let t2 = c.register_inner("steven", "solid", 1, 1, solid_bytes);
        proof {
            assert(("steven"@ + ":"@) + "missing_texture"@ =~= "steven:missing_texture"@);
            assert(("steven"@ + ":"@) + "solid"@ =~= "steven:solid"@);
        }
        c
    }

    /// Read-only lookup under the default-namespace convention: never
    /// allocates, returns the registered texture or nothing.
    pub fn get(&self, name: &str) -> (r: Option<Texture>)
        requires
            self.wf(),
        ensures
            r matches Some(t) ==> spec_find(self.entries@, full_name(name@)) == Some(t)
                && wf_cache_texture(t),
            r is None <==> spec_find(self.entries@, full_name(name@)) is None,
    {
        let full = resolve_name(name);
        match find_entry_index(&self.entries, &full) {
            Some(j) => Some(self.entries[j].1.clone()),
            None => None,
        }
    }

    /// Lookup that never fails: a registered name resolves to its
    /// texture; an unregistered one is registered on the spot as a new
    /// view of the reserved "missing" placeholder, so rendering degrades
    /// visibly instead of crashing.
    pub fn load(&mut self, name: &str) -> (t: Texture)
        requires
            old(self).wf(),
            old(self).version < u64::MAX,
        ensures
            final(self).wf(),
            wf_cache_texture(t),
            spec_find(final(self).entries@, full_name(name@)) == Some(t),
            spec_find(old(self).entries@, full_name(name@)) matches Some(t0) ==> t == t0 && *final(self) == *old(self),
            spec_find(old(self).entries@, full_name(name@)) is None ==> {
                let miss = spec_find(old(self).entries@, TextureCache::missing_name()).unwrap();
                &&& t.eff_x() == miss.eff_x()
                &&& t.eff_y() == miss.eff_y()
                &&& t.eff_width() == miss.eff_width()
                &&& t.eff_height() == miss.eff_height()
                &&& final(self).version == old(self).version + 1
            },
            final(self).pages@ == old(self).pages@,
            final(self).pending@ == old(self).pending@,
            final(self).free_dynamics@ == old(self).free_dynamics@,
            final(self).dynamics@ == old(self).dynamics@,
    {
        let full = resolve_name(name);
        match find_entry_index(&self.entries, &full) {
            Some(j) => self.entries[j].1.clone(),
            None => {
                let miss_name = String::from_str("steven:missing_texture");
                proof {
                    reveal_strlit("steven:missing_texture");
                }
                let mj = match find_entry_index(&self.entries, &miss_name) {
                    Some(mj) => mj,
                    None => {
                        proof {
                            assert(false);
                        }
                        0
                    },
                };
                let miss = &self.entries[mj].1;
                let t = Texture {
                    name: full.clone(),
                    atlas: miss.atlas,
                    x: miss.x,
                    y: miss.y,
                    width: miss.width,
                    height: miss.height,
                    rel: miss.rel,
                };
                let ghost es = self.entries@;
                self.entries.push((full, t.clone()));
                self.version += 1;
                proof {
                    assert forall|n: Seq<char>| true implies spec_find(
                        self.entries@,
                        n,
                    ) == (if spec_find(es, n) is Some {
                        spec_find(es, n)
                    } else if full_name(name@) == n {
                        Some(t)
                    } else {
                        None
                    }) by {
                        lemma_find_push(es, self.entries@.last(), n);
                        assert(self.entries@ =~= es.push(self.entries@.last()));
                        assert(self.entries@.last().1 == t);
                        assert(self.entries@.last().0@ == full_name(name@));
                    }
                    assert forall|a: int, b: int|
                        0 <= a < b < self.entries@.len() implies (#[trigger] self.entries@[a]).0@
                        != (#[trigger] self.entries@[b]).0@ by {
                        if b == self.entries@.len() - 1 {
                            if es[a].0@ == full_name(name@) {
                                lemma_find_present(es, a);
                            }
                        }
                    }
                }
                t
            },
        }
    }

    /// Registers `width x height` RGBA pixels under `plugin:name`:
    /// places the image on the first atlas page with room (opening a new
    /// page when none has), queues the pixel upload, and binds the name.
    pub fn register(&mut self, plugin: &str, name: &str, width: u32, height: u32, data: Vec<u8>)
        -> (t: Texture)
        requires
            old(self).wf(),
            1 <= width <= ATLAS_SIZE,
            1 <= height <= ATLAS_SIZE,
            old(self).version < u64::MAX,
        ensures
            final(self).wf(),
            t.wf(),
            t.name@ == plugin@ + ":"@ + name@,
            t.width == width && t.height == height && t.rel is None,
            spec_find(final(self).entries@, t.name@) == Some(t),
            forall|n: Seq<char>|
                n != t.name@ ==> spec_find(final(self).entries@, n) == spec_find(
                    old(self).entries@,
                    n,
                ),
            final(self).version == old(self).version + 1,
            final(self).pending@.len() == old(self).pending@.len() + 1,
            final(self).pending@.subrange(0, old(self).pending@.len() as int) == old(self).pending@,
            ({
                let up = final(self).pending@.last();
                &&& up.page == t.atlas
                &&& up.rect == (Rect { x: t.x, y: t.y, width, height })
                &&& up.bytes@ == data@
            }),
            final(self).free_dynamics@ == old(self).free_dynamics@,
            final(self).dynamics@ == old(self).dynamics@,
    {
        self.register_inner(plugin, name, width, height, data)
    }

    /// The body of [`TextureCache::register`], shared with the
    /// constructor, which must call it before the placeholder exists.
    fn register_inner(&mut self, plugin: &str, name: &str, width: u32, height: u32, data: Vec<u8>)
        -> (t: Texture)
        requires
            forall|a: int, b: int|
                0 <= a < b < old(self).entries@.len() ==> (#[trigger] old(self).entries@[a]).0@
                    != (#[trigger] old(self).entries@[b]).0@,
            forall|i: int|
                0 <= i < old(self).entries@.len() ==> wf_cache_texture(
                    (#[trigger] old(self).entries@[i]).1,
                ),
            forall|i: int|
                0 <= i < old(self).pages@.len() ==> (#[trigger] old(self).pages@[i]).wf() && old(self).pages@[i].spec_width() == ATLAS_SIZE && old(self).pages@[i].spec_height()
                    == ATLAS_SIZE,
            1 <= width <= ATLAS_SIZE,
            1 <= height <= ATLAS_SIZE,
            old(self).version < u64::MAX,
        ensures
            forall|a: int, b: int|
                0 <= a < b < final(self).entries@.len() ==> (#[trigger] final(self).entries@[a]).0@
                    != (#[trigger] final(self).entries@[b]).0@,
            forall|i: int|
                0 <= i < final(self).entries@.len() ==> wf_cache_texture(
                    (#[trigger] final(self).entries@[i]).1,
                ),
            forall|i: int|
                0 <= i < final(self).pages@.len() ==> (#[trigger] final(self).pages@[i]).wf()
                    && final(self).pages@[i].spec_width() == ATLAS_SIZE && final(self).pages@[i].spec_height() == ATLAS_SIZE,
            t.wf(),
            wf_cache_texture(t),
            t.name@ == plugin@ + ":"@ + name@,
            t.width == width && t.height == height && t.rel is None,
            spec_find(final(self).entries@, t.name@) == Some(t),
            forall|n: Seq<char>|
                n != t.name@ ==> spec_find(final(self).entries@, n) == spec_find(
                    old(self).entries@,
                    n,
                ),
            final(self).version == old(self).version + 1,
            final(self).pending@.len() == old(self).pending@.len() + 1,
            final(self).pending@.subrange(0, old(self).pending@.len() as int) == old(self).pending@,
            ({
                let up = final(self).pending@.last();
                &&& up.page == t.atlas
                &&& up.rect == (Rect { x: t.x, y: t.y, width, height })
                &&& up.bytes@ == data@
            }),
            final(self).free_dynamics@ == old(self).free_dynamics@,
            final(self).dynamics@ == old(self).dynamics@,
    {
        let full = String::from_str(plugin).concat(":").concat(name);
        proof {
            reveal_strlit(":");
        }
        let (page, rect) = self.place(width, height);
        let t = Texture::new(full.clone(), page, rect.x, rect.y, width, height);
        self.pending.push(PendingUpload { page, rect, bytes: data });
        let ghost es = self.entries@;
        match find_entry_index(&self.entries, &full) {
            Some(j) => {
                let mut e = self.entries.remove(j);
                e.1 = t.clone();
                self.entries.insert(j, e);
                proof {
                    es.remove_ensures(j as int);
                    es.remove(j as int).insert_ensures(j as int, self.entries@[j as int]);
                    assert(self.entries@ =~= es.update(j as int, self.entries@[j as int]));
                    assert(self.entries@[j as int].0@ == es[j as int].0@);
                    assert forall|n: Seq<char>| n != t.name@ implies spec_find(
                        self.entries@,
                        n,
                    ) == spec_find(es, n) by {
                        lemma_find_update(es, j as int, self.entries@[j as int], n);
                    }
                    lemma_find_update(es, j as int, self.entries@[j as int], t.name@);
                }
            },
            None => {
                self.entries.push((full, t.clone()));
                proof {
                    assert forall|n: Seq<char>| n != t.name@ implies spec_find(
                        self.entries@,
                        n,
                    ) == spec_find(es, n) by {
                        lemma_find_push(es, self.entries@.last(), n);
                    }
                    lemma_find_push(es, self.entries@.last(), t.name@);
                    assert forall|a: int, b: int|
                        0 <= a < b < self.entries@.len() implies (#[trigger] self.entries@[a]).0@
                        != (#[trigger] self.entries@[b]).0@ by {
                        if b == self.entries@.len() - 1 {
                            if es[a].0@ == t.name@ {
                                lemma_find_present(es, a);
                            }
                        }
                    }
                }
            },
        }
        self.version += 1;
        proof {
            assert(self.pending@.subrange(0, old(self).pending@.len() as int) =~= old(
                self,
            ).pending@);
        }
        t
    }

    /// Finds room on an existing page or opens a fresh one.
    fn place(&mut self, width: u32, height: u32) -> (r: (usize, Rect))
        requires
            forall|i: int|
                0 <= i < old(self).pages@.len() ==> (#[trigger] old(self).pages@[i]).wf() && old(self).pages@[i].spec_width() == ATLAS_SIZE && old(self).pages@[i].spec_height()
                    == ATLAS_SIZE,
            1 <= width <= ATLAS_SIZE,
            1 <= height <= ATLAS_SIZE,
        ensures
            forall|i: int|
                0 <= i < final(self).pages@.len() ==> (#[trigger] final(self).pages@[i]).wf()
                    && final(self).pages@[i].spec_width() == ATLAS_SIZE && final(self).pages@[i].spec_height() == ATLAS_SIZE,
            r.0 < final(self).pages@.len(),
            r.1.width == width,
            r.1.height == height,
            r.1.x + width <= ATLAS_SIZE,
            r.1.y + height <= ATLAS_SIZE,
            final(self).entries@ == old(self).entries@,
            final(self).pending@ == old(self).pending@,
            final(self).free_dynamics@ == old(self).free_dynamics@,
            final(self).dynamics@ == old(self).dynamics@,
            final(self).version == old(self).version,
    {
        let n = self.pages.len();
        let mut i: usize = 0;
        while i < n
            invariant
                n == self.pages@.len(),
                i <= n,
                forall|k: int|
                    0 <= k < self.pages@.len() ==> (#[trigger] self.pages@[k]).wf()
                        && self.pages@[k].spec_width() == ATLAS_SIZE
                        && self.pages@[k].spec_height() == ATLAS_SIZE,
                1 <= width <= ATLAS_SIZE,
                1 <= height <= ATLAS_SIZE,
                self.entries@ == old(self).entries@,
                self.pending@ == old(self).pending@,
                self.free_dynamics@ == old(self).free_dynamics@,
                self.dynamics@ == old(self).dynamics@,
                self.version == old(self).version,
            decreases n - i,
        {
            let ghost pre = self.pages@;
            let mut page = self.pages.remove(i);
            let got = page.add(width, height);
            self.pages.insert(i, page);
            proof {
                pre.remove_ensures(i as int);
                assert(self.pages@ =~= pre.update(i as int, self.pages@[i as int]));
                crate::atlas::AtlasAllocator::lemma_page_rect(self.pages@[i as int]);
            }
            match got {
                Some(rect) => {
                    proof {
                        assert(contained_in_page(rect, width, height));
                    }
                    return (i, rect);
                },
                None => {},
            }
            i += 1;
        }
        let mut page = AtlasAllocator::new(ATLAS_SIZE, ATLAS_SIZE);
        proof {
            crate::atlas::AtlasAllocator::lemma_page_rect(page);
        }
        let got = page.add(width, height);
        let rect = match got {
            Some(rect) => rect,
            None => {
                proof {
                    assert(crate::atlas::fits(
                        seq![
                            Rect { x: 0, y: 0, width: ATLAS_SIZE, height: ATLAS_SIZE },
                        ][0],
                        width,
                        height,
                    ));
                    assert(false);
                }
                Rect { x: 0, y: 0, width, height }
            },
        };
        self.pages.push(page);
        proof {
            assert(contained_in_page(rect, width, height));
        }
        (self.pages.len() - 1, rect)
    }

    /// Queues every pending pixel payload as one partial upload into its
    /// atlas page and clears the queue.  Run once per frame, on the
    /// render thread only.
    pub fn flush_uploads(&mut self) -> (cmds: Vec<GpuCommand>)
        requires
            old(self).wf(),
        ensures
            final(self).wf(),
            final(self).pending@.len() == 0,
            cmds@.len() == old(self).pending@.len(),
            forall|i: int|
                0 <= i < cmds@.len() ==> ((#[trigger] cmds@[i]) matches GpuCommand::TexSubImage {
                    page,
                    x,
                    y,
                    width,
                    height,
                    bytes,
                } && page == old(self).pending@[i].page && x == old(self).pending@[i].rect.x && y
                    == old(self).pending@[i].rect.y && width == old(self).pending@[i].rect.width
                    && height == old(self).pending@[i].rect.height && bytes@ == old(self).pending@[i].bytes@),
            final(self).entries@ == old(self).entries@,
            final(self).pages@ == old(self).pages@,
            final(self).free_dynamics@ == old(self).free_dynamics@,
            final(self).dynamics@ == old(self).dynamics@,
            final(self).version == old(self).version,
    {
        let mut queue: Vec<PendingUpload> = Vec::new();
        core::mem::swap(&mut queue, &mut self.pending);
        let ghost q = queue@;
        let n_total = queue.len();
        let mut cmds: Vec<GpuCommand> = Vec::new();
        let mut i: usize = 0;
        while queue.len() > 0
            invariant
                i + queue@.len() == n_total,
                n_total == q.len(),
                queue@ =~= q.skip(i as int),
                cmds@.len() == i,
                forall|k: int|
                    0 <= k < i ==> ((#[trigger] cmds@[k]) matches GpuCommand::TexSubImage {
                        page,
                        x,
                        y,
                        width,
                        height,
                        bytes,
                    } && page == q[k].page && x == q[k].rect.x && y == q[k].rect.y && width
                        == q[k].rect.width && height == q[k].rect.height && bytes@ == q[k].bytes@),
            decreases queue@.len(),
        {
            let up = queue.remove(0);
            cmds.push(
                GpuCommand::TexSubImage {
                    page: up.page,
                    x: up.rect.x,
                    y: up.rect.y,
                    width: up.rect.width,
                    height: up.rect.height,
                    bytes: up.bytes,
                },
            );
            proof {
                assert(queue@ =~= q.skip(i + 1));
            }
            i += 1;
        }
        cmds
    }
}

/// A placed rectangle of the requested size stays within one page.
pub open spec fn contained_in_page(rect: Rect, width: u32, height: u32) -> bool {
    &&& rect.width == width
    &&& rect.height == height
    &&& rect.x + width <= ATLAS_SIZE
    &&& rect.y + height <= ATLAS_SIZE
}

/// An entry whose name is found by lookup exists, so a fresh push of a
/// name that lookup misses cannot collide.
proof fn lemma_find_present(entries: Seq<(String, Texture)>, a: int)
    requires
        0 <= a < entries.len(),
    ensures
        spec_find(entries, entries[a].0@) is Some,
    decreases entries.len(),
{
    if a > 0 {
        if entries[0].0@ != entries[a].0@ {
            lemma_find_present(entries.drop_first(), a - 1);
        }
    }
}

} // verus!
