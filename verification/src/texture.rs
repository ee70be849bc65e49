//! Atlas texture values.
//!
//! A [`Texture`] names a rectangle on an atlas page, optionally narrowed
//! by a *relative* sub-rectangle whose coordinates are exact fractions of
//! the base rectangle.  Textures are plain values: many of them may view
//! overlapping or identical atlas regions, and none owns pixel data.

use vstd::prelude::*;

verus! {

/// An exact non-negative fraction `num / den`, with `den > 0`.
#[derive(Clone, Copy, Debug, PartialEq, Eq, Structural)]
pub struct Frac {
    pub num: u32,
    pub den: u32,
}

/// A relative view: offsets and extents as fractions of a base rectangle,
/// with `x + w <= 1` and `y + h <= 1` so the view never leaves the base.
#[derive(Clone, Copy, Debug, PartialEq, Eq, Structural)]
pub struct RelRect {
    pub x: Frac,
    pub y: Frac,
    pub w: Frac,
    pub h: Frac,
}

/// `a == b` as rational numbers (cross multiplication).
pub open spec fn frac_eq(a: Frac, b: Frac) -> bool {
    a.num * b.den == b.num * a.den
}

/// `a <= 1` as a rational number.
pub open spec fn frac_le_one(f: Frac) -> bool {
    f.num <= f.den
}

/// `a + b <= 1` as rational numbers.
pub open spec fn sum_le_one(a: Frac, b: Frac) -> bool {
    a.num * b.den + b.num * a.den <= a.den * b.den
}

/// Well-formedness of a relative view.
pub open spec fn wf_rel(r: RelRect) -> bool {
    &&& r.x.den > 0
    &&& r.y.den > 0
    &&& r.w.den > 0
    &&& r.h.den > 0
    &&& frac_le_one(r.x)
    &&& frac_le_one(r.y)
    &&& frac_le_one(r.w)
    &&& frac_le_one(r.h)
    &&& sum_le_one(r.x, r.w)
    &&& sum_le_one(r.y, r.h)
}

/// The algebraic composition of two relative views: applying `b` inside
/// the view selected by `a`.  Exact rational arithmetic:
/// `x' = a.x + a.w * b.x`, `y' = a.y + a.h * b.y`, `w' = a.w * b.w`,
/// `h' = a.h * b.h`.
pub open spec fn compose_rel(a: RelRect, b: RelRect) -> RelRect {
    RelRect {
        x: Frac {
            num: (a.x.num * (a.w.den * b.x.den) + a.w.num * b.x.num * a.x.den) as u32,
            den: (a.x.den * (a.w.den * b.x.den)) as u32,
        },
        y: Frac {
            num: (a.y.num * (a.h.den * b.y.den) + a.h.num * b.y.num * a.y.den) as u32,
            den: (a.y.den * (a.h.den * b.y.den)) as u32,
        },
        w: Frac { num: (a.w.num * b.w.num) as u32, den: (a.w.den * b.w.den) as u32 },
        h: Frac { num: (a.h.num * b.h.num) as u32, den: (a.h.den * b.h.den) as u32 },
    }
}

/// All numerators and denominators of `compose_rel(a, b)` fit in a `u32`,
/// so the composition can be stored exactly.
pub open spec fn compose_fits(a: RelRect, b: RelRect) -> bool {
    &&& a.x.num * (a.w.den * b.x.den) + a.w.num * b.x.num * a.x.den <= u32::MAX
    &&& a.x.den * (a.w.den * b.x.den) <= u32::MAX
    &&& a.y.num * (a.h.den * b.y.den) + a.h.num * b.y.num * a.y.den <= u32::MAX
    &&& a.y.den * (a.h.den * b.y.den) <= u32::MAX
    &&& a.w.num * b.w.num <= u32::MAX
    &&& a.w.den * b.w.den <= u32::MAX
    &&& a.h.num * b.h.num <= u32::MAX
    &&& a.h.den * b.h.den <= u32::MAX
}

/// A texture value: a named base rectangle on one atlas page, optionally
/// narrowed by a relative view.
#[derive(Debug)]
pub struct Texture {
    /// Full logical name, `"plugin:name"`.
    pub name: String,
    /// Index of the atlas page holding the pixels.
    pub atlas: usize,
    pub x: u32,
    pub y: u32,
    pub width: u32,
    pub height: u32,
    /// When present, this texture views only a fraction of its base rect.
    pub rel: Option<RelRect>,
}

impl Texture {
    /// Base rectangle and relative view are sane; the base rectangle's
    /// far corner stays within `u32`.
    pub open spec fn wf(self) -> bool {
        &&& self.x + self.width <= u32::MAX
        &&& self.y + self.height <= u32::MAX
        &&& self.rel matches Some(r) ==> wf_rel(r)
    }

    /// Effective pixel column of the view's left edge.
    pub open spec fn eff_x(self) -> int {
        match self.rel {
            Some(r) => self.x + (self.width * r.x.num) / (r.x.den as int),
            None => self.x as int,
        }
    }

    /// Effective pixel row of the view's top edge.
    pub open spec fn eff_y(self) -> int {
        match self.rel {
            Some(r) => self.y + (self.height * r.y.num) / (r.y.den as int),
            None => self.y as int,
        }
    }

    /// Effective pixel width of the view.
    pub open spec fn eff_width(self) -> int {
        match self.rel {
            Some(r) => (self.width * r.w.num) / (r.w.den as int),
            None => self.width as int,
        }
    }

    /// Effective pixel height of the view.
    pub open spec fn eff_height(self) -> int {
        match self.rel {
            Some(r) => (self.height * r.h.num) / (r.h.den as int),
            None => self.height as int,
        }
    }

    /// A plain texture covering the whole base rectangle.
    pub fn new(name: String, atlas: usize, x: u32, y: u32, width: u32, height: u32) -> (t: Texture)
        requires
            x + width <= u32::MAX,
            y + height <= u32::MAX,
        ensures
            t.wf(),
            t.name == name,
            t.atlas == atlas,
            t.x == x,
            t.y == y,
            t.width == width,
            t.height == height,
            t.rel is None,
            t.eff_x() == x,
            t.eff_y() == y,
            t.eff_width() == width,
            t.eff_height() == height,
    {
        Texture { name, atlas, x, y, width, height, rel: None }
    }

    pub fn get_x(&self) -> (r: u32)
        requires
            self.wf(),
        ensures
            r == self.eff_x(),
    {
        match &self.rel {
            Some(rr) => {
                let scaled = mul_div(self.width, rr.x.num, rr.x.den);
                proof {
                    lemma_mul_div_le(self.width as int, rr.x.num as int, rr.x.den as int);
                }
                self.x + scaled
            },
            None => self.x,
        }
    }

    pub fn get_y(&self) -> (r: u32)
        requires
            self.wf(),
        ensures
            r == self.eff_y(),
    {
        match &self.rel {
            Some(rr) => {
                let scaled = mul_div(self.height, rr.y.num, rr.y.den);
                proof {
                    lemma_mul_div_le(self.height as int, rr.y.num as int, rr.y.den as int);
                }
                self.y + scaled
            },
            None => self.y,
        }
    }

    pub fn get_width(&self) -> (r: u32)
        requires
            self.wf(),
        ensures
            r == self.eff_width(),
    {
        match &self.rel {
            Some(rr) => mul_div(self.width, rr.w.num, rr.w.den),
            None => self.width,
        }
    }

    pub fn get_height(&self) -> (r: u32)
        requires
            self.wf(),
        ensures
            r == self.eff_height(),
    {
        match &self.rel {
            Some(rr) => mul_div(self.height, rr.h.num, rr.h.den),
            None => self.height,
        }
    }

    /// Narrows this texture to the sub-view `sub` of its current view.
    ///
    /// When the texture already carries a relative view the two views are
    /// composed algebraically, so no precision is lost before the final
    /// conversion to pixels in the getters.
    pub fn relative(&self, sub: RelRect) -> (t: Texture)
        requires
            self.wf(),
            wf_rel(sub),
            self.rel matches Some(r) ==> compose_fits(r, sub),
        ensures
            t.wf(),
            t.name == self.name,
            t.atlas == self.atlas,
            t.x == self.x,
            t.y == self.y,
            t.width == self.width,
            t.height == self.height,
            t.rel == (match self.rel {
                Some(r) => Some(compose_rel(r, sub)),
                None => Some(sub),
            }),
    {
        let rel = match &self.rel {
            Some(r) => {
                proof {
                    lemma_compose_wf(*r, sub);
                }
                compose_exec(*r, sub)
            },
            None => sub,
        };
        Texture {
            name: self.name.clone(),
            atlas: self.atlas,
            x: self.x,
            y: self.y,
            width: self.width,
            height: self.height,
            rel: Some(rel),
        }
    }
}

impl Clone for Texture {
    fn clone(&self) -> (t: Texture)
        ensures
            t == *self,
    {
        Texture {
            name: self.name.clone(),
            atlas: self.atlas,
            x: self.x,
            y: self.y,
            width: self.width,
            height: self.height,
            rel: self.rel,
        }
    }
}

/// The effective view of a well-formed texture never leaves its base
/// rectangle: the offsets stay at or after the base corner and the
/// effective extents never exceed the base extents.
pub proof fn lemma_effective_in_base(t: Texture)
    requires
        t.wf(),
    ensures
        t.x <= t.eff_x() <= t.x + t.width,
        t.y <= t.eff_y() <= t.y + t.height,
        0 <= t.eff_width() <= t.width,
        0 <= t.eff_height() <= t.height,
{
    match t.rel {
        Some(r) => {
            lemma_mul_div_le(t.width as int, r.x.num as int, r.x.den as int);
            lemma_mul_div_le(t.height as int, r.y.num as int, r.y.den as int);
            lemma_mul_div_le(t.width as int, r.w.num as int, r.w.den as int);
            lemma_mul_div_le(t.height as int, r.h.num as int, r.h.den as int);
        },
        None => {},
    }
}

/// `(a * num) / den`, exact in `u64` and at most `a`.
pub(crate) fn mul_div(a: u32, num: u32, den: u32) -> (r: u32)
    requires
        den > 0,
        num <= den,
    ensures
        r == (a * num) / (den as int),
        r <= a,
{
    proof {
        assert((a as int) * (num as int) <= 0xffff_ffff * 0xffff_ffff) by (nonlinear_arith)
            requires
                a <= u32::MAX,
                num <= u32::MAX,
        ;
        lemma_mul_div_le(a as int, num as int, den as int);
    }
    let p = (a as u64) * (num as u64);
    (p / (den as u64)) as u32
}

/// `(a * num) / den <= a` when `num <= den`.
proof fn lemma_mul_div_le(a: int, num: int, den: int)
    requires
        a >= 0,
        num >= 0,
        den > 0,
        num <= den,
    ensures
        0 <= (a * num) / den <= a,
{
    assert(0 <= (a * num) / den <= a) by (nonlinear_arith)
        requires
            a >= 0,
            num >= 0,
            den > 0,
            num <= den,
    ;
}

/// Composition preserves well-formedness whenever its products fit.
proof fn lemma_compose_wf(a: RelRect, b: RelRect)
    requires
        wf_rel(a),
        wf_rel(b),
        compose_fits(a, b),
    ensures
        wf_rel(compose_rel(a, b)),
{
    lemma_compose_axis_wf(a.x, a.w, b.x, b.w);
    lemma_compose_axis_wf(a.y, a.h, b.y, b.h);
}

/// One axis of `lemma_compose_wf`: if `(ax, aw)` and `(bx, bw)` each stay
/// within the unit interval, so does the composed `(x', w')`.
#[verifier::rlimit(50)]
proof fn lemma_compose_axis_wf(ax: Frac, aw: Frac, bx: Frac, bw: Frac)
    requires
        ax.den > 0,
        aw.den > 0,
        bx.den > 0,
        bw.den > 0,
        frac_le_one(ax),
        frac_le_one(aw),
        frac_le_one(bx),
        frac_le_one(bw),
        sum_le_one(ax, aw),
        sum_le_one(bx, bw),
        ax.num * (aw.den * bx.den) + aw.num * bx.num * ax.den <= u32::MAX,
        ax.den * (aw.den * bx.den) <= u32::MAX,
        aw.num * bw.num <= u32::MAX,
        aw.den * bw.den <= u32::MAX,
    ensures
        ({
            let xn = ax.num * (aw.den * bx.den) + aw.num * bx.num * ax.den;
            let xd = ax.den * (aw.den * bx.den);
            let wn = aw.num * bw.num;
            let wd = aw.den * bw.den;
            &&& xd > 0
            &&& wd > 0
            &&& xn <= xd
            &&& wn <= wd
            &&& xn * wd + wn * xd <= xd * wd
        }),
{
    let xn = ax.num * (aw.den * bx.den) + aw.num * bx.num * ax.den;
    let xd = ax.den * (aw.den * bx.den);
    let wn = aw.num * bw.num;
    let wd = aw.den * bw.den;
    assert(xd > 0 && wd > 0) by (nonlinear_arith)
        requires
            ax.den > 0,
            aw.den > 0,
            bx.den > 0,
            bw.den > 0,
            xd == ax.den * (aw.den * bx.den),
            wd == aw.den * bw.den,
    ;
    assert(xn <= xd) by (nonlinear_arith)
        requires
            ax.den > 0,
            aw.den > 0,
            bx.den > 0,
            bw.den > 0,
            ax.num >= 0,
            aw.num >= 0,
            bx.num >= 0,
            bx.num <= bx.den,
            sum_le_one(ax, aw),
            xn == ax.num * (aw.den * bx.den) + aw.num * bx.num * ax.den,
            xd == ax.den * (aw.den * bx.den),
    ;
    assert(wn <= wd) by (nonlinear_arith)
        requires
            aw.num <= aw.den,
            bw.num <= bw.den,
            aw.num >= 0,
            bw.num >= 0,
            wn == aw.num * bw.num,
            wd == aw.den * bw.den,
    ;
    // x' + w' <= 1 because x' + w' == ax + aw * (bx + bw) <= ax + aw <= 1.
    let p = aw.num * ax.den;
    let q = bx.den * bw.den;
    let bsum = bx.num * bw.den + bw.num * bx.den;
    assert(xn * wd == (ax.num * (aw.den * bx.den)) * (aw.den * bw.den) + (aw.num * bx.num
        * ax.den) * (aw.den * bw.den)) by (nonlinear_arith)
        requires
            xn == ax.num * (aw.den * bx.den) + aw.num * bx.num * ax.den,
            wd == aw.den * bw.den,
    ;
    assert((ax.num * (aw.den * bx.den)) * (aw.den * bw.den) == aw.den * (ax.num * aw.den * (bx.den
        * bw.den))) by (nonlinear_arith);
    assert((aw.num * bx.num * ax.den) * (aw.den * bw.den) == aw.den * ((aw.num * ax.den) * (bx.num
        * bw.den))) by (nonlinear_arith);
    assert(xn * wd == aw.den * (ax.num * aw.den * q) + aw.den * (p * (bx.num * bw.den)));
    assert(wn * xd == aw.den * (p * (bw.num * bx.den))) by (nonlinear_arith)
        requires
            wn == aw.num * bw.num,
            xd == ax.den * (aw.den * bx.den),
            p == aw.num * ax.den,
    ;
    assert(aw.den * (p * bsum) == aw.den * (p * (bx.num * bw.den)) + aw.den * (p * (bw.num
        * bx.den))) by (nonlinear_arith)
        requires
            bsum == bx.num * bw.den + bw.num * bx.den,
    ;
    assert(aw.den * (ax.num * aw.den * q + p * bsum) == aw.den * (ax.num * aw.den * q) + aw.den
        * (p * bsum)) by (nonlinear_arith);
    assert(xn * wd + wn * xd == aw.den * (ax.num * aw.den * q + p * bsum));
    assert(p * bsum <= p * q) by (nonlinear_arith)
        requires
            p >= 0,
            bsum <= q,
            bsum == bx.num * bw.den + bw.num * bx.den,
            q == bx.den * bw.den,
            sum_le_one(bx, bw),
    ;
    assert(ax.num * aw.den * q + p * q == (ax.num * aw.den + p) * q) by (nonlinear_arith);
    assert((ax.num * aw.den + p) * q <= (ax.den * aw.den) * q) by (nonlinear_arith)
        requires
            q >= 0,
            ax.num * aw.den + p <= ax.den * aw.den,
            p == aw.num * ax.den,
            sum_le_one(ax, aw),
    ;
    assert(aw.den * (ax.num * aw.den * q + p * bsum) <= aw.den * ((ax.den * aw.den) * q))
        by (nonlinear_arith)
        requires
            aw.den >= 0,
            ax.num * aw.den * q + p * bsum <= (ax.den * aw.den) * q,
    ;
    assert(aw.den * ((ax.den * aw.den) * q) == xd * wd) by (nonlinear_arith)
        requires
            xd == ax.den * (aw.den * bx.den),
            wd == aw.den * bw.den,
            q == bx.den * bw.den,
    ;
}

/// Executable exact composition of two relative views.
fn compose_exec(a: RelRect, b: RelRect) -> (r: RelRect)
    requires
        wf_rel(a),
        wf_rel(b),
        compose_fits(a, b),
    ensures
        r == compose_rel(a, b),
{
    RelRect {
        x: Frac {
            num: mul3_add_mul3(a.x.num, a.w.den, b.x.den, a.w.num, b.x.num, a.x.den),
            den: mul3(a.x.den, a.w.den, b.x.den),
        },
        y: Frac {
            num: mul3_add_mul3(a.y.num, a.h.den, b.y.den, a.h.num, b.y.num, a.y.den),
            den: mul3(a.y.den, a.h.den, b.y.den),
        },
        w: Frac { num: mul2(a.w.num, b.w.num), den: mul2(a.w.den, b.w.den) },
        h: Frac { num: mul2(a.h.num, b.h.num), den: mul2(a.h.den, b.h.den) },
    }
}

/// The texture produced by [`Texture::relative`], as a spec-level value.
pub open spec fn spec_relative(t: Texture, sub: RelRect) -> Texture {
    Texture {
        name: t.name,
        atlas: t.atlas,
        x: t.x,
        y: t.y,
        width: t.width,
        height: t.height,
        rel: match t.rel {
            Some(r) => Some(compose_rel(r, sub)),
            None => Some(sub),
        },
    }
}

/// An exact rational with unbounded numerator and denominator, used to
/// reason about compositions whose intermediate products exceed `u32`.
pub struct Ratio {
    pub n: int,
    pub d: int,
}

/// The rational value of a stored fraction.
pub open spec fn ratio_of(f: Frac) -> Ratio {
    Ratio { n: f.num as int, d: f.den as int }
}

/// `a == b` as rational numbers.
pub open spec fn qeq(a: Ratio, b: Ratio) -> bool {
    a.n * b.d == b.n * a.d
}

pub open spec fn qmul(a: Ratio, b: Ratio) -> Ratio {
    Ratio { n: a.n * b.n, d: a.d * b.d }
}

pub open spec fn qadd(a: Ratio, b: Ratio) -> Ratio {
    Ratio { n: a.n * b.d + b.n * a.d, d: a.d * b.d }
}

#[verifier::rlimit(50)]
proof fn lemma_qeq_trans(a: Ratio, b: Ratio, c: Ratio)
    requires
        qeq(a, b),
        qeq(b, c),
        b.d != 0,
    ensures
        qeq(a, c),
{
    assert(a.n * c.d * b.d == c.n * a.d * b.d) by (nonlinear_arith)
        requires
            a.n * b.d == b.n * a.d,
            b.n * c.d == c.n * b.d,
    ;
    assert(a.n * c.d == c.n * a.d) by (nonlinear_arith)
        requires
            a.n * c.d * b.d == c.n * a.d * b.d,
            b.d != 0,
    ;
}

#[verifier::rlimit(50)]
proof fn lemma_qadd_congr(p: Ratio, a: Ratio, b: Ratio)
    requires
        qeq(a, b),
    ensures
        qeq(qadd(p, a), qadd(p, b)),
{
    assert((p.n * a.d + a.n * p.d) * (p.d * b.d) == (p.n * b.d + b.n * p.d) * (p.d * a.d))
        by (nonlinear_arith)
        requires
            a.n * b.d == b.n * a.d,
    ;
}

#[verifier::rlimit(50)]
proof fn lemma_qmul_congr(p: Ratio, a: Ratio, b: Ratio)
    requires
        qeq(a, b),
    ensures
        qeq(qmul(p, a), qmul(p, b)),
{
    assert((p.n * a.n) * (p.d * b.d) == (p.n * b.n) * (p.d * a.d)) by (nonlinear_arith)
        requires
            a.n * b.d == b.n * a.d,
    ;
}

#[verifier::rlimit(50)]
proof fn lemma_qmul_assoc(p: Ratio, q: Ratio, r: Ratio)
    ensures
        qeq(qmul(qmul(p, q), r), qmul(p, qmul(q, r))),
{
    assert(((p.n * q.n) * r.n) * (p.d * (q.d * r.d)) == (p.n * (q.n * r.n)) * ((p.d * q.d) * r.d))
        by (nonlinear_arith);
}

#[verifier::rlimit(50)]
proof fn lemma_qadd_assoc(p: Ratio, q: Ratio, r: Ratio)
    ensures
        qeq(qadd(qadd(p, q), r), qadd(p, qadd(q, r))),
{
    assert(((p.n * q.d + q.n * p.d) * r.d + r.n * (p.d * q.d)) * (p.d * (q.d * r.d)) == (p.n * (q.d
        * r.d) + (q.n * r.d + r.n * q.d) * p.d) * ((p.d * q.d) * r.d)) by (nonlinear_arith);
}

#[verifier::rlimit(50)]
proof fn lemma_qdistrib(p: Ratio, q: Ratio, r: Ratio)
    ensures
        qeq(qmul(p, qadd(q, r)), qadd(qmul(p, q), qmul(p, r))),
{
    assert((p.n * (q.n * r.d + r.n * q.d)) * ((p.d * q.d) * (p.d * r.d)) == (p.n * (q.n * r.d))
        * ((p.d * q.d) * (p.d * r.d)) + (p.n * (r.n * q.d)) * ((p.d * q.d) * (p.d * r.d)))
        by (nonlinear_arith);
    assert((p.n * (q.n * r.d)) * ((p.d * q.d) * (p.d * r.d)) == ((p.n * q.n) * (p.d * r.d)) * (p.d
        * (q.d * r.d))) by (nonlinear_arith);
    assert((p.n * (r.n * q.d)) * ((p.d * q.d) * (p.d * r.d)) == ((p.n * r.n) * (p.d * q.d)) * (p.d
        * (q.d * r.d))) by (nonlinear_arith);
    assert(((p.n * q.n) * (p.d * r.d) + (p.n * r.n) * (p.d * q.d)) * (p.d * (q.d * r.d)) == ((p.n
        * q.n) * (p.d * r.d)) * (p.d * (q.d * r.d)) + ((p.n * r.n) * (p.d * q.d)) * (p.d * (q.d
        * r.d))) by (nonlinear_arith);
}

/// A product of positives is positive.
proof fn lemma_pos_mul(a: int, b: int)
    requires
        a > 0,
        b > 0,
    ensures
        a * b > 0,
{
    assert(a * b > 0) by (nonlinear_arith)
        requires
            a > 0,
            b > 0,
    ;
}

/// The stored composition computes exactly the rational affine map
/// `x' = a.x + a.w * b.x` (and likewise for the other components),
/// provided its products fit in `u32`.
proof fn lemma_compose_q(a: RelRect, b: RelRect)
    requires
        compose_fits(a, b),
    ensures
        ratio_of(compose_rel(a, b).x) == qadd(
            ratio_of(a.x),
            qmul(ratio_of(a.w), ratio_of(b.x)),
        ),
        ratio_of(compose_rel(a, b).y) == qadd(
            ratio_of(a.y),
            qmul(ratio_of(a.h), ratio_of(b.y)),
        ),
        ratio_of(compose_rel(a, b).w) == qmul(ratio_of(a.w), ratio_of(b.w)),
        ratio_of(compose_rel(a, b).h) == qmul(ratio_of(a.h), ratio_of(b.h)),
{
    assert(a.x.num * (a.w.den * b.x.den) >= 0 && a.w.num * b.x.num * a.x.den >= 0 && a.x.den * (
    a.w.den * b.x.den) >= 0 && a.y.num * (a.h.den * b.y.den) >= 0 && a.h.num * b.y.num * a.y.den
        >= 0 && a.y.den * (a.h.den * b.y.den) >= 0 && a.w.num * b.w.num >= 0 && a.w.den * b.w.den
        >= 0 && a.h.num * b.h.num >= 0 && a.h.den * b.h.den >= 0) by (nonlinear_arith);
}

/// Relative-view composition is associative as exact rational arithmetic:
/// narrowing by `r1` and then by `r2` selects the same rational
/// sub-rectangle as narrowing once by `compose_rel(r1, r2)`.
pub proof fn lemma_compose_rel_assoc(r0: RelRect, r1: RelRect, r2: RelRect)
    requires
        wf_rel(r0),
        wf_rel(r1),
        wf_rel(r2),
        compose_fits(r0, r1),
        compose_fits(compose_rel(r0, r1), r2),
        compose_fits(r1, r2),
        compose_fits(r0, compose_rel(r1, r2)),
    ensures
        frac_eq(
            compose_rel(compose_rel(r0, r1), r2).x,
            compose_rel(r0, compose_rel(r1, r2)).x,
        ),
        frac_eq(
            compose_rel(compose_rel(r0, r1), r2).y,
            compose_rel(r0, compose_rel(r1, r2)).y,
        ),
        frac_eq(
            compose_rel(compose_rel(r0, r1), r2).w,
            compose_rel(r0, compose_rel(r1, r2)).w,
        ),
        frac_eq(
            compose_rel(compose_rel(r0, r1), r2).h,
            compose_rel(r0, compose_rel(r1, r2)).h,
        ),
{
    lemma_compose_q(r0, r1);
    lemma_compose_q(compose_rel(r0, r1), r2);
    lemma_compose_q(r1, r2);
    lemma_compose_q(r0, compose_rel(r1, r2));
    lemma_axis_assoc(
        ratio_of(r0.x),
        ratio_of(r0.w),
        ratio_of(r1.x),
        ratio_of(r1.w),
        ratio_of(r2.x),
        ratio_of(r2.w),
    );
    lemma_axis_assoc(
        ratio_of(r0.y),
        ratio_of(r0.h),
        ratio_of(r1.y),
        ratio_of(r1.h),
        ratio_of(r2.y),
        ratio_of(r2.h),
    );
    assert(frac_eq(compose_rel(compose_rel(r0, r1), r2).x, compose_rel(r0, compose_rel(r1, r2)).x));
    assert(frac_eq(compose_rel(compose_rel(r0, r1), r2).y, compose_rel(r0, compose_rel(r1, r2)).y));
    assert(frac_eq(compose_rel(compose_rel(r0, r1), r2).w, compose_rel(r0, compose_rel(r1, r2)).w));
    assert(frac_eq(compose_rel(compose_rel(r0, r1), r2).h, compose_rel(r0, compose_rel(r1, r2)).h));
}

/// Associativity of one axis of the affine composition, over exact
/// rationals: `(x0 + w0 x1) + (w0 w1) x2 == x0 + w0 (x1 + w1 x2)` and
/// `(w0 w1) w2 == w0 (w1 w2)`.
proof fn lemma_axis_assoc(x0: Ratio, w0: Ratio, x1: Ratio, w1: Ratio, x2: Ratio, w2: Ratio)
    requires
        x0.d > 0,
        w0.d > 0,
        x1.d > 0,
        w1.d > 0,
        x2.d > 0,
        w2.d > 0,
    ensures
        qeq(
            qadd(qadd(x0, qmul(w0, x1)), qmul(qmul(w0, w1), x2)),
            qadd(x0, qmul(w0, qadd(x1, qmul(w1, x2)))),
        ),
        qeq(qmul(qmul(w0, w1), w2), qmul(w0, qmul(w1, w2))),
{
    lemma_qmul_assoc(w0, w1, w2);
    let m = qmul(w1, x2);
    let inner = qadd(x1, m);
    let a = qmul(w0, x1);
    let b = qmul(qmul(w0, w1), x2);
    // positivity of every denominator that appears
    lemma_pos_mul(w1.d, x2.d);
    lemma_pos_mul(x1.d, m.d);
    lemma_pos_mul(w0.d, x1.d);
    lemma_pos_mul(w0.d, w1.d);
    lemma_pos_mul(qmul(w0, w1).d, x2.d);
    lemma_pos_mul(w0.d, m.d);
    lemma_pos_mul(w0.d, inner.d);
    lemma_pos_mul(a.d, qmul(w0, m).d);
    lemma_pos_mul(a.d, b.d);
    lemma_pos_mul(x0.d, qadd(a, b).d);
    // w0 * (x1 + w1 x2)  ~  w0 x1 + w0 (w1 x2)  ~  w0 x1 + (w0 w1) x2
    lemma_qdistrib(w0, x1, m);
    lemma_qmul_assoc(w0, w1, x2);
    lemma_qadd_congr(a, qmul(w0, m), b);
    lemma_qeq_trans(qmul(w0, inner), qadd(a, qmul(w0, m)), qadd(a, b));
    // x0 + (w0 x1 + (w0 w1) x2)  ~  (x0 + w0 x1) + (w0 w1) x2
    lemma_qadd_congr(x0, qmul(w0, inner), qadd(a, b));
    lemma_qadd_assoc(x0, a, b);
    lemma_qeq_trans(qadd(qadd(x0, a), b), qadd(x0, qadd(a, b)), qadd(x0, qmul(w0, inner)));
}

/// Equal rationals scale an integer width to the same pixel count.
proof fn lemma_div_frac_eq(w: int, f: Frac, g: Frac)
    requires
        w >= 0,
        f.den > 0,
        g.den > 0,
        frac_eq(f, g),
    ensures
        (w * f.num) / (f.den as int) == (w * g.num) / (g.den as int),
{
    let n1 = f.num as int;
    let d1 = f.den as int;
    let n2 = g.num as int;
    let d2 = g.den as int;
    let q = (w * n1) / d1;
    let r = (w * n1) % d1;
    vstd::arithmetic::div_mod::lemma_fundamental_div_mod(w * n1, d1);
    vstd::arithmetic::div_mod::lemma_mod_division_less_than_divisor(w * n1, d1);
    let big = w * n2 - q * d2;
    assert(big * d1 == r * d2) by (nonlinear_arith)
        requires
            w * n1 == d1 * q + r,
            n1 * d2 == n2 * d1,
            big == w * n2 - q * d2,
    ;
    assert(0 <= big < d2) by (nonlinear_arith)
        requires
            big * d1 == r * d2,
            0 <= r < d1,
            d1 > 0,
            d2 > 0,
    ;
    vstd::arithmetic::div_mod::lemma_fundamental_div_mod_converse(w * n2, d2, q, big);
}

/// Composing relative views is associative: narrowing a texture by `r1`
/// and then by `r2` yields the same effective pixel rectangle as
/// narrowing it once by the algebraic composition of `r1` and `r2`.
pub proof fn lemma_relative_associative(t: Texture, r1: RelRect, r2: RelRect)
    requires
        t.wf(),
        wf_rel(r1),
        wf_rel(r2),
        t.rel matches Some(r0) ==> compose_fits(r0, r1) && compose_fits(
            compose_rel(r0, r1),
            r2,
        ) && compose_fits(r1, r2) && compose_fits(r0, compose_rel(r1, r2)),
        t.rel is None ==> compose_fits(r1, r2),
    ensures
        ({
            let chained = spec_relative(spec_relative(t, r1), r2);
            let single = spec_relative(t, compose_rel(r1, r2));
            &&& chained.eff_x() == single.eff_x()
            &&& chained.eff_y() == single.eff_y()
            &&& chained.eff_width() == single.eff_width()
            &&& chained.eff_height() == single.eff_height()
        }),
{
    let chained = spec_relative(spec_relative(t, r1), r2);
    let single = spec_relative(t, compose_rel(r1, r2));
    match t.rel {
        Some(r0) => {
            lemma_compose_rel_assoc(r0, r1, r2);
            let cc = compose_rel(compose_rel(r0, r1), r2);
            let cs = compose_rel(r0, compose_rel(r1, r2));
            lemma_compose_dens_pos(r0, r1);
            lemma_compose_dens_pos(compose_rel(r0, r1), r2);
            lemma_compose_dens_pos(r1, r2);
            lemma_compose_dens_pos(r0, compose_rel(r1, r2));
            lemma_div_frac_eq(t.width as int, cc.x, cs.x);
            lemma_div_frac_eq(t.height as int, cc.y, cs.y);
            lemma_div_frac_eq(t.width as int, cc.w, cs.w);
            lemma_div_frac_eq(t.height as int, cc.h, cs.h);
        },
        None => {},
    }
}

/// Denominators of a fitting composition are positive.
proof fn lemma_compose_dens_pos(a: RelRect, b: RelRect)
    requires
        a.x.den > 0,
        a.y.den > 0,
        a.w.den > 0,
        a.h.den > 0,
        b.x.den > 0,
        b.y.den > 0,
        b.w.den > 0,
        b.h.den > 0,
        compose_fits(a, b),
    ensures
        compose_rel(a, b).x.den > 0,
        compose_rel(a, b).y.den > 0,
        compose_rel(a, b).w.den > 0,
        compose_rel(a, b).h.den > 0,
{
    assert(a.x.den * (a.w.den * b.x.den) > 0 && a.y.den * (a.h.den * b.y.den) > 0 && a.w.den
        * b.w.den > 0 && a.h.den * b.h.den > 0) by (nonlinear_arith)
        requires
            a.x.den > 0,
            a.y.den > 0,
            a.w.den > 0,
            a.h.den > 0,
            b.x.den > 0,
            b.y.den > 0,
            b.w.den > 0,
            b.h.den > 0,
    ;
}

/// `a * b` when the product fits in a `u32`.
fn mul2(a: u32, b: u32) -> (r: u32)
    requires
        a * b <= u32::MAX,
    ensures
        r == a * b,
{
    proof {
        assert((a as int) * (b as int) <= 0xffff_ffff * 0xffff_ffff) by (nonlinear_arith)
            requires
                a <= u32::MAX,
                b <= u32::MAX,
        ;
    }
    ((a as u64) * (b as u64)) as u32
}

/// `a * (b * c)` when the product fits in a `u32`.
fn mul3(a: u32, b: u32, c: u32) -> (r: u32)
    requires
        a * (b * c) <= u32::MAX,
    ensures
        r == a * (b * c),
{
    proof {
        assert((b as int) * (c as int) <= 0xffff_ffff * 0xffff_ffff) by (nonlinear_arith)
            requires
                b <= u32::MAX,
                c <= u32::MAX,
        ;
        assert((b as int) * (c as int) >= 0 && ((a as int) * ((b as int) * (c as int)) <= u32::MAX
            && a > 0 ==> (b as int) * (c as int) <= u32::MAX)) by (nonlinear_arith)
            requires
                a >= 0,
                b >= 0,
                c >= 0,
        ;
    }
    if a == 0 {
        return 0;
    }
    let bc = (b as u64) * (c as u64);
    proof {
        assert((a as int) * ((b as u64) * (c as u64)) <= u32::MAX) by (nonlinear_arith)
            requires
                a > 0,
                (b as u64) * (c as u64) == (b as int) * (c as int),
                (a as int) * ((b as int) * (c as int)) <= u32::MAX,
        ;
    }
    ((a as u64) * bc) as u32
}

/// `a * (b * c) + d * e * f` when each product and the sum fit in a `u32`.
fn mul3_add_mul3(a: u32, b: u32, c: u32, d: u32, e: u32, f: u32) -> (r: u32)
    requires
        a * (b * c) + d * e * f <= u32::MAX,
    ensures
        r == a * (b * c) + d * e * f,
{
    proof {
        assert(a * (b * c) >= 0 && d * e * f >= 0 && d * (e * f) == d * e * f)
            by (nonlinear_arith)
            requires
                a >= 0,
                b >= 0,
                c >= 0,
                d >= 0,
                e >= 0,
                f >= 0,
        ;
    }
    let left = mul3(a, b, c);
    let right = mul3(d, e, f);
    left + right
}

} // verus!
