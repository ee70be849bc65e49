//! 2D bin packing for one fixed-size atlas page.
//!
//! An [`AtlasAllocator`] answers "where can a `width x height` block be
//! placed on this page" without ever moving a block that was already
//! handed out.  It keeps a list of free rectangles; `add` consumes the
//! smallest free rectangle that fits and splits the remainder into at most
//! two new free rectangles (a right strip and a bottom strip).  No
//! compaction is ever attempted.

use vstd::prelude::*;

verus! {

/// A rectangle in atlas-page pixel coordinates.  Immutable once allocated.
#[derive(Clone, Copy, Debug, PartialEq, Eq, Structural)]
pub struct Rect {
    pub x: u32,
    pub y: u32,
    pub width: u32,
    pub height: u32,
}

/// The two rectangles share no pixel.
pub open spec fn disjoint(a: Rect, b: Rect) -> bool {
    ||| a.x + a.width <= b.x
    ||| b.x + b.width <= a.x
    ||| a.y + a.height <= b.y
    ||| b.y + b.height <= a.y
}

/// `inner` lies entirely within `outer`.
pub open spec fn contained_in(inner: Rect, outer: Rect) -> bool {
    &&& outer.x <= inner.x
    &&& inner.x + inner.width <= outer.x + outer.width
    &&& outer.y <= inner.y
    &&& inner.y + inner.height <= outer.y + outer.height
}

/// A `width x height` block fits inside the free rectangle `r`.
pub open spec fn fits(r: Rect, width: u32, height: u32) -> bool {
    width <= r.width && height <= r.height
}

/// Area of a rectangle, the measure by which free rectangles are compared.
pub open spec fn area(r: Rect) -> int {
    r.width * r.height
}

/// `i` is the index of the smallest free rectangle of `free` that can hold
/// a `width x height` block, earliest first on ties.
pub open spec fn is_best_fit(free: Seq<Rect>, width: u32, height: u32, i: int) -> bool {
    &&& 0 <= i < free.len()
    &&& fits(free[i], width, height)
    &&& forall|j: int| 0 <= j < i && fits(free[j], width, height) ==> area(free[i]) < area(free[j])
    &&& forall|j: int|
        i < j < free.len() && fits(free[j], width, height) ==> area(free[i]) <= area(free[j])
}

/// The placed block when `free[i]` is consumed for a `width x height`
/// request: the block sits in the consumed rectangle's top-left corner.
pub open spec fn placed_rect(free: Seq<Rect>, i: int, width: u32, height: u32) -> Rect {
    Rect { x: free[i].x, y: free[i].y, width, height }
}

/// The right strip left over beside the placed block.
pub open spec fn right_strip(f: Rect, width: u32, height: u32) -> Rect {
    Rect { x: (f.x + width) as u32, y: f.y, width: (f.width - width) as u32, height }
}

/// The bottom strip left over below the consumed rectangle.
pub open spec fn bottom_strip(f: Rect, width: u32, height: u32) -> Rect {
    Rect { x: f.x, y: (f.y + height) as u32, width: f.width, height: (f.height - height) as u32 }
}

/// The free list after consuming `free[i]` for a `width x height` block:
/// the consumed rectangle is removed and the unused remainder comes back
/// as a right strip and a bottom strip, each only if it is not empty.
pub open spec fn split_free(free: Seq<Rect>, i: int, width: u32, height: u32) -> Seq<Rect> {
    let f = free[i];
    let rest = free.remove(i);
    let with_right = if width < f.width {
        rest.push(right_strip(f, width, height))
    } else {
        rest
    };
    if height < f.height {
        with_right.push(bottom_strip(f, width, height))
    } else {
        with_right
    }
}

/// The page invariant over plain sequences: free rectangles are non-empty,
/// lie on the page and are pairwise disjoint; allocated rectangles lie on
/// the page, are pairwise disjoint and are disjoint from every free
/// rectangle.  Pairwise disjointness of `alloc` is the no-overlap
/// guarantee of the allocator.
pub open spec fn inv_rects(page: Rect, free: Seq<Rect>, alloc: Seq<Rect>) -> bool {
    &&& page.x + page.width <= u32::MAX
    &&& page.y + page.height <= u32::MAX
    &&& forall|i: int|
        0 <= i < free.len() ==> (#[trigger] free[i]).width > 0 && free[i].height > 0
            && contained_in(free[i], page)
    &&& forall|i: int, j: int|
        0 <= i < j < free.len() ==> disjoint(#[trigger] free[i], #[trigger] free[j])
    &&& forall|i: int| 0 <= i < alloc.len() ==> contained_in(#[trigger] alloc[i], page)
    &&& forall|i: int, j: int|
        0 <= i < j < alloc.len() ==> disjoint(#[trigger] alloc[i], #[trigger] alloc[j])
    &&& forall|i: int, j: int|
        0 <= i < alloc.len() && 0 <= j < free.len() ==> disjoint(
            #[trigger] alloc[i],
            #[trigger] free[j],
        )
}

/// Sub-rectangles of two disjoint rectangles are themselves disjoint.
pub proof fn lemma_disjoint_contained(a: Rect, b: Rect, sa: Rect, sb: Rect)
    requires
        disjoint(a, b),
        contained_in(sa, a),
        contained_in(sb, b),
    ensures
        disjoint(sa, sb),
{
}

/// Consuming a free rectangle preserves the page invariant: the placed
/// block and the remainder strips stay on the page, stay disjoint from
/// everything else, and the block overlaps no other allocated block.
pub proof fn lemma_split_preserves_inv(
    page: Rect,
    free: Seq<Rect>,
    alloc: Seq<Rect>,
    i: int,
    width: u32,
    height: u32,
)
    requires
        inv_rects(page, free, alloc),
        0 <= i < free.len(),
        fits(free[i], width, height),
        width > 0,
        height > 0,
    ensures
        inv_rects(
            page,
            split_free(free, i, width, height),
            alloc.push(placed_rect(free, i, width, height)),
        ),
{
    let f = free[i];
    let r = placed_rect(free, i, width, height);
    let newfree = split_free(free, i, width, height);
    let newalloc = alloc.push(r);

    // Each piece of the new free list is non-empty and on the page.
    assert forall|k: int| 0 <= k < newfree.len() implies (#[trigger] newfree[k]).width > 0
        && newfree[k].height > 0 && contained_in(newfree[k], page) by {
        lemma_split_index(free, i, width, height, k);
        if k >= free.len() - 1 {
            assert(contained_in(newfree[k], f));
        }
    }

    assert forall|k1: int, k2: int| 0 <= k1 < k2 < newfree.len() implies disjoint(
        #[trigger] newfree[k1],
        #[trigger] newfree[k2],
    ) by {
        lemma_piece_disjoint(page, free, alloc, i, width, height, k1, k2);
    }

    assert forall|a: int, j: int|
        0 <= a < newalloc.len() && 0 <= j < newfree.len() implies disjoint(
        #[trigger] newalloc[a],
        #[trigger] newfree[j],
    ) by {
        lemma_alloc_free_disjoint(page, free, alloc, i, width, height, a, j);
    }

    assert forall|a: int, b: int| 0 <= a < b < newalloc.len() implies disjoint(
        #[trigger] newalloc[a],
        #[trigger] newalloc[b],
    ) by {
        if b < alloc.len() {
        } else {
            assert(newalloc[b] == r);
            assert(disjoint(alloc[a], f));
            lemma_disjoint_contained(alloc[a], f, alloc[a], r);
        }
    }
}

/// Maps an index of the free list after a split back to the piece it
/// holds: an untouched old rectangle, the right strip, or the bottom strip.
proof fn lemma_split_index(free: Seq<Rect>, i: int, width: u32, height: u32, k: int)
    requires
        0 <= i < free.len(),
        fits(free[i], width, height),
        free[i].x + free[i].width <= u32::MAX,
        free[i].y + free[i].height <= u32::MAX,
        0 <= k < split_free(free, i, width, height).len(),
    ensures
        k < free.len() - 1 ==> split_free(free, i, width, height)[k] == free[if k < i {
            k
        } else {
            k + 1
        }],
        k >= free.len() - 1 ==> {
            let piece = split_free(free, i, width, height)[k];
            piece == right_strip(free[i], width, height) || piece == bottom_strip(
                free[i],
                width,
                height,
            )
        },
        k >= free.len() - 1 ==> contained_in(
            split_free(free, i, width, height)[k],
            free[i],
        ),
        width < free[i].width && height < free[i].height ==> {
            &&& k == free.len() - 1 ==> split_free(free, i, width, height)[k] == right_strip(
                free[i],
                width,
                height,
            )
            &&& k == free.len() ==> split_free(free, i, width, height)[k] == bottom_strip(
                free[i],
                width,
                height,
            )
        },
{
    let f = free[i];
    let rest = free.remove(i);
    free.remove_ensures(i);
    let newfree = split_free(free, i, width, height);
    if k < rest.len() {
        assert(newfree[k] == rest[k]);
    } else {
        if width < f.width && height < f.height {
            if k == rest.len() {
                assert(newfree[k] == right_strip(f, width, height));
            } else {
                assert(newfree[k] == bottom_strip(f, width, height));
            }
        } else if width < f.width {
            assert(newfree[k] == right_strip(f, width, height));
        } else if height < f.height {
            assert(newfree[k] == bottom_strip(f, width, height));
        }
        assert(contained_in(right_strip(f, width, height), f));
        assert(contained_in(bottom_strip(f, width, height), f));
    }
}

/// Any two distinct pieces of the free list after a split are disjoint.
proof fn lemma_piece_disjoint(
    page: Rect,
    free: Seq<Rect>,
    alloc: Seq<Rect>,
    i: int,
    width: u32,
    height: u32,
    k1: int,
    k2: int,
)
    requires
        inv_rects(page, free, alloc),
        0 <= i < free.len(),
        fits(free[i], width, height),
        width > 0,
        height > 0,
        0 <= k1 < k2 < split_free(free, i, width, height).len(),
    ensures
        disjoint(split_free(free, i, width, height)[k1], split_free(free, i, width, height)[k2]),
{
    let f = free[i];
    let newfree = split_free(free, i, width, height);
    lemma_split_index(free, i, width, height, k1);
    lemma_split_index(free, i, width, height, k2);
    if k1 < free.len() - 1 && k2 < free.len() - 1 {
        // two untouched old rectangles
        let j1 = if k1 < i {
            k1
        } else {
            k1 + 1
        };
        let j2 = if k2 < i {
            k2
        } else {
            k2 + 1
        };
        if j1 < j2 {
            assert(disjoint(free[j1], free[j2]));
        } else {
            assert(disjoint(free[j2], free[j1]));
        }
    } else if k1 < free.len() - 1 {
        // old rectangle vs a strip inside f
        let j = if k1 < i {
            k1
        } else {
            k1 + 1
        };
        if j < i {
            assert(disjoint(free[j], free[i]));
        } else {
            assert(disjoint(free[i], free[j]));
        }
        lemma_disjoint_contained(free[j], f, free[j], newfree[k2]);
    } else {
        // the right strip vs the bottom strip
        assert(newfree[k1] == right_strip(f, width, height));
        assert(newfree[k2] == bottom_strip(f, width, height));
    }
}

/// After a split, every allocated rectangle (the fresh block included) is
/// disjoint from every remaining free piece.
proof fn lemma_alloc_free_disjoint(
    page: Rect,
    free: Seq<Rect>,
    alloc: Seq<Rect>,
    i: int,
    width: u32,
    height: u32,
    a: int,
    j: int,
)
    requires
        inv_rects(page, free, alloc),
        0 <= i < free.len(),
        fits(free[i], width, height),
        width > 0,
        height > 0,
        0 <= a < alloc.len() + 1,
        0 <= j < split_free(free, i, width, height).len(),
    ensures
        disjoint(
            alloc.push(placed_rect(free, i, width, height))[a],
            split_free(free, i, width, height)[j],
        ),
{
    let f = free[i];
    let r = placed_rect(free, i, width, height);
    let newfree = split_free(free, i, width, height);
    let piece = newfree[j];
    lemma_split_index(free, i, width, height, j);
    if a < alloc.len() {
        assert(newalloc_at(alloc, r, a) == alloc[a]);
        if j < free.len() - 1 {
            // old allocation vs untouched old free rectangle
            let jj = if j < i {
                j
            } else {
                j + 1
            };
            assert(disjoint(alloc[a], free[jj]));
        } else {
            // old allocation vs a strip inside f
            assert(disjoint(alloc[a], f));
            assert(contained_in(piece, f));
            lemma_disjoint_contained(alloc[a], f, alloc[a], piece);
        }
    } else {
        // the fresh block vs each free piece
        assert(newalloc_at(alloc, r, a) == r);
        if j < free.len() - 1 {
            let jj = if j < i {
                j
            } else {
                j + 1
            };
            if jj < i {
                assert(disjoint(free[jj], free[i]));
            } else {
                assert(disjoint(free[i], free[jj]));
            }
            assert(contained_in(r, f));
            lemma_disjoint_contained(f, free[jj], r, free[jj]);
        } else {
            // the fresh block vs its own remainder strips
            assert(piece == right_strip(f, width, height) || piece == bottom_strip(
                f,
                width,
                height,
            ));
        }
    }
}

/// Index into `alloc` extended with the fresh block `r`.
spec fn newalloc_at(alloc: Seq<Rect>, r: Rect, a: int) -> Rect {
    alloc.push(r)[a]
}

/// Packs rectangles into one fixed-size page.
///
/// The ghost `allocated` sequence records every rectangle ever returned by
/// [`AtlasAllocator::add`]; the well-formedness invariant says those
/// rectangles are pairwise disjoint, so no two live blocks on a page can
/// overlap.
pub struct AtlasAllocator {
    width: u32,
    height: u32,
    free: Vec<Rect>,
    allocated: Ghost<Seq<Rect>>,
}

impl AtlasAllocator {
    /// The whole page as a rectangle.
    pub closed spec fn page_rect(self) -> Rect {
        Rect { x: 0, y: 0, width: self.width, height: self.height }
    }

    pub closed spec fn spec_width(self) -> u32 {
        self.width
    }

    pub closed spec fn spec_height(self) -> u32 {
        self.height
    }

    /// Every rectangle ever returned by `add`, in order of return.
    pub closed spec fn allocated_rects(self) -> Seq<Rect> {
        self.allocated@
    }

    /// The current free rectangles.
    pub closed spec fn free_rects(self) -> Seq<Rect> {
        self.free@
    }

    /// The page invariant, over this page's free and allocated rectangles.
    pub open spec fn wf(self) -> bool {
        inv_rects(self.page_rect(), self.free_rects(), self.allocated_rects())
    }

    /// The page rectangle starts at the origin with the page's extents.
    pub proof fn lemma_page_rect(a: AtlasAllocator)
        ensures
            a.page_rect() == (Rect { x: 0, y: 0, width: a.spec_width(), height: a.spec_height() }),
    {
    }

    /// A fresh page: all of it is free, nothing is allocated.
    pub fn new(width: u32, height: u32) -> (a: AtlasAllocator)
        requires
            width > 0,
            height > 0,
        ensures
            a.wf(),
            a.spec_width() == width,
            a.spec_height() == height,
            a.page_rect() == (Rect { x: 0, y: 0, width, height }),
            a.allocated_rects() =~= Seq::<Rect>::empty(),
            a.free_rects() =~= seq![Rect { x: 0, y: 0, width, height }],
    {
        let mut free: Vec<Rect> = Vec::new();
        free.push(Rect { x: 0, y: 0, width, height });
        AtlasAllocator { width, height, free, allocated: Ghost(Seq::empty()) }
    }

    /// Tries to place a `width x height` block on the page.
    ///
    /// Succeeds exactly when some free rectangle can hold the block; the
    /// consumed free rectangle is the smallest that fits (earliest on
    /// ties), the block is placed in its top-left corner, and the unused
    /// remainder is split into at most two new free rectangles.  On
    /// failure nothing changes; no previously returned rectangle ever
    /// moves.
    pub fn add(&mut self, width: u32, height: u32) -> (r: Option<Rect>)
        requires
            old(self).wf(),
            width > 0,
            height > 0,
        ensures
            final(self).wf(),
            final(self).spec_width() == old(self).spec_width(),
            final(self).spec_height() == old(self).spec_height(),
            r is Some <==> exists|i: int|
                0 <= i < old(self).free_rects().len() && fits(
                    #[trigger] old(self).free_rects()[i],
                    width,
                    height,
                ),
            r matches Some(rect) ==> exists|i: int|
                {
                    &&& is_best_fit(old(self).free_rects(), width, height, i)
                    &&& rect == placed_rect(old(self).free_rects(), i, width, height)
                    &&& final(self).free_rects() =~= split_free(
                        old(self).free_rects(),
                        i,
                        width,
                        height,
                    )
                    &&& final(self).allocated_rects() =~= old(self).allocated_rects().push(rect)
                },
            r is None ==> *final(self) == *old(self),
            r matches Some(rect) ==> rect.width == width && rect.height == height
                && contained_in(rect, final(self).page_rect()),
    {
        let ghost free0 = self.free@;
        let mut best: usize = 0;
        let mut found = false;
        let mut idx: usize = 0;
        while idx < self.free.len()
            invariant
                idx <= self.free.len(),
                self.free@ == free0,
                found ==> best < idx,
                found ==> fits(free0[best as int], width, height),
                found ==> forall|j: int|
                    0 <= j < best && fits(free0[j], width, height) ==> area(free0[best as int])
                        < area(free0[j]),
                found ==> forall|j: int|
                    best < j < idx && fits(free0[j], width, height) ==> area(free0[best as int])
                        <= area(free0[j]),
                !found ==> forall|j: int| 0 <= j < idx ==> !fits(free0[j], width, height),
            decreases self.free.len() - idx,
        {
            let f = self.free[idx];
            if width <= f.width && height <= f.height {
                if !found {
                    found = true;
                    best = idx;
                } else {
                    let b = self.free[best];
                    proof {
                        assert((f.width as int) * (f.height as int) < 0x1_0000_0000_0000_0000
                            && (b.width as int) * (b.height as int) < 0x1_0000_0000_0000_0000)
                            by (nonlinear_arith)
                            requires
                                f.width <= u32::MAX,
                                f.height <= u32::MAX,
                                b.width <= u32::MAX,
                                b.height <= u32::MAX,
                        ;
                    }
                    if (f.width as u64) * (f.height as u64) < (b.width as u64) * (b.height as u64) {
                        best = idx;
                    }
                }
            }
            idx += 1;
        }
        if !found {
            return None;
        }
        let f = self.free[best];
        let rect = Rect { x: f.x, y: f.y, width, height };
        proof {
            assert(is_best_fit(free0, width, height, best as int));
            assert(fits(free0[best as int], width, height));
            lemma_split_preserves_inv(
                self.page_rect(),
                free0,
                self.allocated@,
                best as int,
                width,
                height,
            );
        }
        self.free.remove(best);
        if width < f.width {
            self.free.push(Rect { x: f.x + width, y: f.y, width: f.width - width, height });
        }
        if height < f.height {
            self.free.push(
                Rect { x: f.x, y: f.y + height, width: f.width, height: f.height - height },
            );
        }
        self.allocated = Ghost(self.allocated@.push(rect));
        proof {
            assert(self.free@ =~= split_free(free0, best as int, width, height));
        }
        Some(rect)
    }
}

} // verus!
