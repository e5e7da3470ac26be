use vstd::prelude::*;
use crate::geometry::{Point, Size};

verus! {

/// Zoom factors are fixed-point numbers in thousandths: this value is 1.0.
pub const ZOOM_ONE: u32 = 1000;

/// Largest window or page extent the viewport accepts.
pub const EXTENT_LIMIT: i64 = 0x1_0000_0000;

/// Largest scroll offset the viewport can hold.
pub const OFFSET_LIMIT: i64 = 0x100_0000_0000_0000;

/// `n / d` rounded to the nearest integer, halves away from zero (`n >= 0`).
pub open spec fn round_ratio(n: int, d: int) -> int {
    (2 * n + d) / (2 * d)
}

/// The value `vn / vd` clamped to `[0, max(0, mn / md)]`, then rounded.
pub open spec fn clamp_round(vn: int, vd: int, mn: int, md: int) -> int {
    if vn <= 0 || mn <= 0 {
        0
    } else if vn * md >= mn * vd {
        round_ratio(mn, md)
    } else {
        round_ratio(vn, vd)
    }
}

/// The scroll bound on one axis, in thousandths of a pixel:
/// `page * world_zoom - window`.
pub open spec fn axis_max(page: int, window: int, zoom: int) -> int {
    page * zoom - window * ZOOM_ONE
}

/// A 2-D affine map with a common denominator:
/// `(x, y) |-> ((sx * x + tx) / den, (sy * y + ty) / den)`.
#[derive(Clone, Copy, Debug, PartialEq, Eq, Structural)]
pub struct Transform {
    pub sx: i128,
    pub sy: i128,
    pub tx: i128,
    pub ty: i128,
    pub den: i128,
}

impl Transform {
    /// The identity map.
    pub fn identity() -> (r: Transform)
        ensures
            r == (Transform { sx: 1, sy: 1, tx: 0, ty: 0, den: 1 }),
    {
        Transform { sx: 1, sy: 1, tx: 0, ty: 0, den: 1 }
    }
}


/// The world zoom after a pinch by `mag` (both in thousandths): the product,
/// never below 1.0 and never above the largest representable zoom.
pub open spec fn zoomed(old: int, mag: int) -> int {
    let p = old * mag / (ZOOM_ONE as int);
    if p < ZOOM_ONE { ZOOM_ONE as int } else if p > u32::MAX { u32::MAX as int } else { p }
}

/// The offset on one axis, before clamping, that keeps the window's centre
/// on the same page point when the zoom goes from `old` to `new`, as the
/// fraction `(numerator, denominator)`.
pub open spec fn recentred(off: int, window: int, old: int, new: int) -> (int, int) {
    ((2 * off + window) * new - window * old, 2 * old)
}

/// The window, page, scroll offset and the two zoom levels.
#[derive(Clone, Copy, Debug, PartialEq, Eq, Structural)]
pub struct Viewport {
    /// Window size in platform pixels.
    pub window: Size,
    /// Page size in page pixels.
    pub page: Size,
    /// Top-left page coordinate shown in the window, at world zoom.
    pub offset: Point,
    /// Zoom at which tiles are requested, in thousandths.
    pub world_zoom: u32,
    /// Transient zoom applied on top of the scene during a pinch, in thousandths.
    pub local_zoom: u32,
}

impl Viewport {
    pub open spec fn wf(self) -> bool {
        &&& 0 <= self.window.width < EXTENT_LIMIT
        &&& 0 <= self.window.height < EXTENT_LIMIT
        &&& 0 <= self.page.width < EXTENT_LIMIT
        &&& 0 <= self.page.height < EXTENT_LIMIT
        &&& 0 <= self.offset.x <= OFFSET_LIMIT
        &&& 0 <= self.offset.y <= OFFSET_LIMIT
        &&& ZOOM_ONE <= self.world_zoom
        &&& self.local_zoom <= self.world_zoom
    }

    /// Scroll bound on the x axis, in thousandths of a pixel.
    pub open spec fn max_x(self) -> int {
        axis_max(self.page.width as int, self.window.width as int, self.world_zoom as int)
    }

    /// Scroll bound on the y axis, in thousandths of a pixel.
    pub open spec fn max_y(self) -> int {
        axis_max(self.page.height as int, self.window.height as int, self.world_zoom as int)
    }

    /// The viewport after a scroll by `(dx, dy)`.
    pub open spec fn scrolled(self, dx: int, dy: int) -> Viewport {
        Viewport {
            offset: Point {
                x: clamp_round(self.offset.x - dx, 1, self.max_x(), ZOOM_ONE as int) as i64,
                y: clamp_round(self.offset.y - dy, 1, self.max_y(), ZOOM_ONE as int) as i64,
            },
            ..self
        }
    }

    /// The viewport after a pinch by `mag`.
    pub open spec fn pinched(self, mag: int) -> Viewport {
        let z = zoomed(self.world_zoom as int, mag);
        let rx = recentred(self.offset.x as int, self.window.width as int, self.world_zoom as int, z);
        let ry = recentred(self.offset.y as int, self.window.height as int, self.world_zoom as int, z);
        Viewport {
            world_zoom: z as u32,
            local_zoom: (self.local_zoom * z / (self.world_zoom as int)) as u32,
            offset: Point {
                x: clamp_round(rx.0, rx.1, axis_max(self.page.width as int, self.window.width as int, z), ZOOM_ONE as int) as i64,
                y: clamp_round(ry.0, ry.1, axis_max(self.page.height as int, self.window.height as int, z), ZOOM_ONE as int) as i64,
            },
            ..self
        }
    }

    /// The scene root's transform for this viewport.
    pub open spec fn root_spec(self) -> Transform {
        Transform {
            sx: self.local_zoom as i128,
            sy: self.local_zoom as i128,
            tx: (-1000 * self.offset.x) as i128,
            ty: (-1000 * self.offset.y) as i128,
            den: ZOOM_ONE as i128,
        }
    }

    /// A viewport over an empty page for a window of the given size.
    pub open spec fn new_spec(width: u32, height: u32) -> Viewport {
        Viewport {
            window: Size { width: width as i64, height: height as i64 },
            page: Size { width: 0, height: 0 },
            offset: Point { x: 0, y: 0 },
            world_zoom: ZOOM_ONE,
            local_zoom: ZOOM_ONE,
        }
    }

    /// A viewport at zoom 1.0, scrolled to the top-left corner.
    pub fn new(window: Size, page: Size) -> (r: Viewport)
        requires
            0 <= window.width < EXTENT_LIMIT,
            0 <= window.height < EXTENT_LIMIT,
            0 <= page.width < EXTENT_LIMIT,
            0 <= page.height < EXTENT_LIMIT,
        ensures
            r.wf(),
            r == (Viewport { window, page, offset: Point { x: 0, y: 0 }, world_zoom: ZOOM_ONE, local_zoom: ZOOM_ONE }),
    {
        Viewport { window, page, offset: Point { x: 0, y: 0 }, world_zoom: ZOOM_ONE, local_zoom: ZOOM_ONE }
    }

    fn clamp_axis(vn: i128, vd: i128, page: i64, window: i64, zoom: u32) -> (r: i64)
        requires
            -0x1_0000_0000_0000_0000_0000_0000 < vn < 0x1_0000_0000_0000_0000_0000_0000,
            0 < vd < 0x100_0000_0000,
            0 <= page < EXTENT_LIMIT,
            0 <= window < EXTENT_LIMIT,
        ensures
            r == clamp_round(vn as int, vd as int, axis_max(page as int, window as int, zoom as int), ZOOM_ONE as int),
            0 <= r <= OFFSET_LIMIT,
    {
        assert(0 <= page * zoom < 0x1_0000_0000_0000_0000) by (nonlinear_arith)
            requires
                0 <= page < EXTENT_LIMIT,
                zoom <= u32::MAX,
        ;
        let pz: i128 = page as i128 * zoom as i128;
        let wz: i128 = window as i128 * 1000;
        let mn: i128 = pz - wz;
        assert(mn < 1000 * OFFSET_LIMIT);
        clamp_round_exec(vn, vd, mn, ZOOM_ONE as i128)
    }

    /// Moves the offset back by `(dx, dy)`, clamped to the page and rounded.
    pub fn scroll(&mut self, dx: i32, dy: i32)
        requires
            old(self).wf(),
        ensures
            final(self).wf(),
            *final(self) == old(self).scrolled(dx as int, dy as int),
            final(self).offset.x == clamp_round(old(self).offset.x - dx, 1, old(self).max_x(), ZOOM_ONE as int),
            final(self).offset.y == clamp_round(old(self).offset.y - dy, 1, old(self).max_y(), ZOOM_ONE as int),
            final(self).window == old(self).window,
            final(self).page == old(self).page,
            final(self).world_zoom == old(self).world_zoom,
            final(self).local_zoom == old(self).local_zoom,
    {
        let vx: i128 = self.offset.x as i128 - dx as i128;
        let vy: i128 = self.offset.y as i128 - dy as i128;
        self.offset.x = Self::clamp_axis(vx, 1, self.page.width, self.window.width, self.world_zoom);
        self.offset.y = Self::clamp_axis(vy, 1, self.page.height, self.window.height, self.world_zoom);
    }

    /// Applies a pinch by `mag` (in thousandths): scales the world zoom,
    /// scales the local zoom by the same ratio, and moves the offset so that
    /// the window's centre stays on the same page point, clamped and rounded.
    pub fn zoom(&mut self, mag: u32)
        requires
            old(self).wf(),
        ensures
            final(self).wf(),
            *final(self) == old(self).pinched(mag as int),
            final(self).world_zoom == zoomed(old(self).world_zoom as int, mag as int),
            final(self).local_zoom == old(self).local_zoom * final(self).world_zoom / (old(self).world_zoom as int),
            final(self).offset.x == clamp_round(
                recentred(old(self).offset.x as int, old(self).window.width as int, old(self).world_zoom as int, final(self).world_zoom as int).0,
                recentred(old(self).offset.x as int, old(self).window.width as int, old(self).world_zoom as int, final(self).world_zoom as int).1,
                final(self).max_x(), ZOOM_ONE as int),
            final(self).offset.y == clamp_round(
                recentred(old(self).offset.y as int, old(self).window.height as int, old(self).world_zoom as int, final(self).world_zoom as int).0,
                recentred(old(self).offset.y as int, old(self).window.height as int, old(self).world_zoom as int, final(self).world_zoom as int).1,
                final(self).max_y(), ZOOM_ONE as int),
            final(self).window == old(self).window,
            final(self).page == old(self).page,
    {
        let old_zoom: u32 = self.world_zoom;
        assert(old_zoom as u64 * mag as u64 <= u64::MAX) by (nonlinear_arith)
            requires
                old_zoom <= u32::MAX,
                mag <= u32::MAX,
        ;
        let p: u64 = old_zoom as u64 * mag as u64 / ZOOM_ONE as u64;
        let z: u32 = if p < ZOOM_ONE as u64 { ZOOM_ONE } else if p > u32::MAX as u64 { u32::MAX } else { p as u32 };
        proof {
            assert(self.local_zoom as int * z as int <= old_zoom as int * z as int) by (nonlinear_arith)
                requires
                    self.local_zoom <= old_zoom,
                    0 <= z,
            ;
            assert(self.local_zoom as int * z as int <= u64::MAX) by (nonlinear_arith)
                requires
                    self.local_zoom <= u32::MAX,
                    z <= u32::MAX,
            ;
            vstd::arithmetic::div_mod::lemma_div_is_ordered(
                self.local_zoom as int * z as int, old_zoom as int * z as int, old_zoom as int);
            vstd::arithmetic::div_mod::lemma_div_multiples_vanish(z as int, old_zoom as int);
            assert(z as int * old_zoom as int == old_zoom as int * z as int) by (nonlinear_arith);
        }
        let local: u64 = self.local_zoom as u64 * z as u64 / old_zoom as u64;
        self.world_zoom = z;
        self.local_zoom = local as u32;
        let (ox, oy) = (self.offset.x as i128, self.offset.y as i128);
        let (wx, wy) = (self.window.width as i128, self.window.height as i128);
        assert(-0x1_0000_0000_0000_0000_0000_0000 < (2 * ox + wx) * z - wx * old_zoom < 0x1_0000_0000_0000_0000_0000_0000) by (nonlinear_arith)
            requires
                0 <= ox <= OFFSET_LIMIT,
                0 <= wx < EXTENT_LIMIT,
                z <= u32::MAX,
                old_zoom <= u32::MAX,
        ;
        assert(-0x1_0000_0000_0000_0000_0000_0000 < (2 * oy + wy) * z - wy * old_zoom < 0x1_0000_0000_0000_0000_0000_0000) by (nonlinear_arith)
            requires
                0 <= oy <= OFFSET_LIMIT,
                0 <= wy < EXTENT_LIMIT,
                z <= u32::MAX,
                old_zoom <= u32::MAX,
        ;
        assert(0 <= (2 * ox + wx) * z < 0x1_0000_0000_0000_0000_0000_0000 && 0 <= wx * old_zoom < 0x1_0000_0000_0000_0000
            && 0 <= (2 * oy + wy) * z < 0x1_0000_0000_0000_0000_0000_0000 && 0 <= wy * old_zoom < 0x1_0000_0000_0000_0000) by (nonlinear_arith)
            requires
                0 <= ox <= OFFSET_LIMIT,
                0 <= wx < EXTENT_LIMIT,
                0 <= oy <= OFFSET_LIMIT,
                0 <= wy < EXTENT_LIMIT,
                z <= u32::MAX,
                old_zoom <= u32::MAX,
        ;
        let vx: i128 = (2 * ox + wx) * z as i128 - wx * old_zoom as i128;
        let vy: i128 = (2 * oy + wy) * z as i128 - wy * old_zoom as i128;
        let d: i128 = 2 * old_zoom as i128;
        self.offset.x = Self::clamp_axis(vx, d, self.page.width, self.window.width, z);
        self.offset.y = Self::clamp_axis(vy, d, self.page.height, self.window.height, z);
    }

    /// The scene root's map from page pixels to window pixels:
    /// `translate(W/2 * L - O) . scale(L) . translate(-W/2)`, with `W` the
    /// window size, `L` the local zoom and `O` the offset. As `L` is in
    /// thousandths, the contract states the image of each coordinate
    /// multiplied by 2000, which keeps it in integers.
    pub fn root_transform(&self) -> (r: Transform)
        requires
            self.wf(),
        ensures
            r == self.root_spec(),
            r.den == ZOOM_ONE,
            forall|x: int| #![trigger r.sx * x]
                2 * (r.sx * x + r.tx) == self.window.width * self.local_zoom - 2 * ZOOM_ONE * self.offset.x
                    + self.local_zoom * (2 * x - self.window.width),
            forall|y: int| #![trigger r.sy * y]
                2 * (r.sy * y + r.ty) == self.window.height * self.local_zoom - 2 * ZOOM_ONE * self.offset.y
                    + self.local_zoom * (2 * y - self.window.height),
    {
        let l: i128 = self.local_zoom as i128;
        assert(0 <= self.offset.x <= OFFSET_LIMIT && 0 <= self.offset.y <= OFFSET_LIMIT);
        let r = Transform {
            sx: l,
            sy: l,
            tx: 0 - self.offset.x as i128 * 1000,
            ty: 0 - self.offset.y as i128 * 1000,
            den: ZOOM_ONE as i128,
        };
        assert forall|x: int| #![trigger r.sx * x]
            2 * (r.sx * x + r.tx) == self.window.width * self.local_zoom - 2 * ZOOM_ONE * self.offset.x
                + self.local_zoom * (2 * x - self.window.width) by {
            let (li, w, o) = (l as int, self.window.width as int, self.offset.x as int);
            assert(2 * (li * x + (-1000 * o)) == w * li - 2 * 1000 * o + li * (2 * x - w)) by (nonlinear_arith);
        }
        assert forall|y: int| #![trigger r.sy * y]
            2 * (r.sy * y + r.ty) == self.window.height * self.local_zoom - 2 * ZOOM_ONE * self.offset.y
                + self.local_zoom * (2 * y - self.window.height) by {
            let (li, h, o) = (l as int, self.window.height as int, self.offset.y as int);
            assert(2 * (li * y + (-1000 * o)) == h * li - 2 * 1000 * o + li * (2 * y - h)) by (nonlinear_arith);
        }
        r
    }
}


/// Clamping keeps the result between zero and the rounded bound, and below
/// the bound itself when the bound is a whole number of pixels.
pub proof fn lemma_clamp_in_bounds(vn: int, vd: int, mn: int, md: int)
    requires
        0 < vd,
        0 < md,
    ensures
        0 <= clamp_round(vn, vd, mn, md),
        clamp_round(vn, vd, mn, md) <= round_ratio(if mn > 0 { mn } else { 0 }, md),
        mn % md == 0 ==> clamp_round(vn, vd, mn, md) * md <= (if mn > 0 { mn } else { 0 }),
{
    let mx = if mn > 0 { mn } else { 0 };
    vstd::arithmetic::div_mod::lemma_fundamental_div_mod(mx, md);
    let c = mx / md;
    vstd::arithmetic::div_mod::lemma_mod_pos_bound(mx, md);
    if mn % md == 0 {
        vstd::arithmetic::div_mod::lemma_fundamental_div_mod(mn, md);
        assert(mx % md == 0);
        assert(2 * mx + md == (2 * md) * c + md) by (nonlinear_arith)
            requires
                mx == md * c + mx % md,
                mx % md == 0,
        ;
        vstd::arithmetic::div_mod::lemma_fundamental_div_mod_converse(2 * mx + md, 2 * md, c, md);
        assert(round_ratio(mx, md) == c);
        assert(c * md <= mx) by (nonlinear_arith)
            requires
                mx == md * c + mx % md,
                mx % md == 0,
        ;
    }
    {
        assert(round_ratio(mx, md) >= 0) by {
            vstd::arithmetic::div_mod::lemma_fundamental_div_mod(2 * mx + md, 2 * md);
            vstd::arithmetic::div_mod::lemma_mod_pos_bound(2 * mx + md, 2 * md);
            assert(round_ratio(mx, md) >= 0) by (nonlinear_arith)
                requires
                    2 * mx + md == (2 * md) * round_ratio(mx, md) + (2 * mx + md) % (2 * md),
                    (2 * mx + md) % (2 * md) < 2 * md,
                    0 <= mx,
                    0 < md,
            ;
        }
    }
    if vn > 0 && mn > 0 {
        if vn * md < mn * vd {
            lemma_round_monotone(vn, vd, mn, md);
            vstd::arithmetic::div_mod::lemma_fundamental_div_mod(2 * vn + vd, 2 * vd);
            vstd::arithmetic::div_mod::lemma_mod_pos_bound(2 * vn + vd, 2 * vd);
            assert(round_ratio(vn, vd) >= 0) by (nonlinear_arith)
                requires
                    2 * vn + vd == (2 * vd) * round_ratio(vn, vd) + (2 * vn + vd) % (2 * vd),
                    (2 * vn + vd) % (2 * vd) < 2 * vd,
                    0 < vn,
                    0 < vd,
            ;
            assert(clamp_round(vn, vd, mn, md) == round_ratio(vn, vd));
        } else {
            assert(clamp_round(vn, vd, mn, md) == round_ratio(mx, md));
        }
    }
    if mn % md == 0 {
        let r = clamp_round(vn, vd, mn, md);
        assert(r * md <= c * md) by (nonlinear_arith)
            requires
                r <= c,
                0 < md,
        ;
    }
}

/// After any scroll the offset lies in `[0, max(0, page * world_zoom - window)]`
/// on each axis, up to rounding of that bound; within the bound itself when
/// `page * world_zoom` is a whole number of pixels.
pub proof fn lemma_scroll_in_bounds(v: Viewport, dx: int, dy: int)
    requires
        v.wf(),
    ensures
        0 <= v.scrolled(dx, dy).offset.x <= round_ratio(if v.max_x() > 0 { v.max_x() } else { 0 }, ZOOM_ONE as int),
        0 <= v.scrolled(dx, dy).offset.y <= round_ratio(if v.max_y() > 0 { v.max_y() } else { 0 }, ZOOM_ONE as int),
        v.max_x() % (ZOOM_ONE as int) == 0 ==> v.scrolled(dx, dy).offset.x * ZOOM_ONE <= (if v.max_x() > 0 { v.max_x() } else { 0 }),
        v.max_y() % (ZOOM_ONE as int) == 0 ==> v.scrolled(dx, dy).offset.y * ZOOM_ONE <= (if v.max_y() > 0 { v.max_y() } else { 0 }),
{
    lemma_clamp_in_bounds(v.offset.x - dx, 1, v.max_x(), ZOOM_ONE as int);
    lemma_clamp_in_bounds(v.offset.y - dy, 1, v.max_y(), ZOOM_ONE as int);
    assert(v.max_x() < 0x1_0000_0000_0000_0000 && v.max_y() < 0x1_0000_0000_0000_0000) by (nonlinear_arith)
        requires
            v.wf(),
    ;
    lemma_round_small(v.max_x());
    lemma_round_small(v.max_y());
}

proof fn lemma_round_small(m: int)
    requires
        m < 0x1_0000_0000_0000_0000,
    ensures
        round_ratio(if m > 0 { m } else { 0 }, ZOOM_ONE as int) < OFFSET_LIMIT,
{
    let mx = if m > 0 { m } else { 0 };
    vstd::arithmetic::div_mod::lemma_div_is_ordered(2 * mx + 1000, 2 * 0x1_0000_0000_0000_0000int + 1000, 2000);
}

/// Whatever the pinch, the world zoom stays at least 1.0.
pub proof fn lemma_zoom_at_least_one(v: Viewport, mag: int)
    requires
        v.wf(),
    ensures
        v.pinched(mag).world_zoom >= ZOOM_ONE,
        v.pinched(mag).local_zoom <= v.pinched(mag).world_zoom,
{
    let z = zoomed(v.world_zoom as int, mag);
    assert(ZOOM_ONE <= z <= u32::MAX);
    assert(v.local_zoom * z <= v.world_zoom * z) by (nonlinear_arith)
        requires
            v.local_zoom <= v.world_zoom,
            0 <= z,
    ;
    vstd::arithmetic::div_mod::lemma_div_is_ordered(v.local_zoom * z, v.world_zoom * z, v.world_zoom as int);
    vstd::arithmetic::div_mod::lemma_div_multiples_vanish(z, v.world_zoom as int);
    assert(z * v.world_zoom == v.world_zoom * z) by (nonlinear_arith);
    assert(0 <= v.local_zoom * z / (v.world_zoom as int)) by {
        vstd::arithmetic::div_mod::lemma_div_pos_is_pos(v.local_zoom as int * z, v.world_zoom as int);
    }
}

proof fn lemma_round_monotone(vn: int, vd: int, mn: int, md: int)
    requires
        0 < vn,
        0 < mn,
        0 < vd,
        0 < md,
        vn * md < mn * vd,
    ensures
        round_ratio(vn, vd) <= round_ratio(mn, md),
{
    let q = round_ratio(vn, vd);
    vstd::arithmetic::div_mod::lemma_fundamental_div_mod(2 * vn + vd, 2 * vd);
    vstd::arithmetic::div_mod::lemma_mod_pos_bound(2 * vn + vd, 2 * vd);
    assert(q * (2 * vd) <= 2 * vn + vd);
    assert(q * (2 * md) * vd < (2 * mn + md) * vd) by (nonlinear_arith)
        requires
            q * (2 * vd) <= 2 * vn + vd,
            vn * md < mn * vd,
            0 < md,
            0 < vd,
    ;
    assert(q * (2 * md) < 2 * mn + md) by (nonlinear_arith)
        requires
            q * (2 * md) * vd < (2 * mn + md) * vd,
            0 < vd,
    ;
    vstd::arithmetic::div_mod::lemma_fundamental_div_mod(2 * mn + md, 2 * md);
    vstd::arithmetic::div_mod::lemma_mod_pos_bound(2 * mn + md, 2 * md);
    let p = round_ratio(mn, md);
    assert(q <= p) by (nonlinear_arith)
        requires
            q * (2 * md) < 2 * mn + md,
            2 * mn + md == (2 * md) * p + (2 * mn + md) % (2 * md),
            0 <= (2 * mn + md) % (2 * md) < 2 * md,
            0 < md,
    ;
}

proof fn lemma_round_bound(mn: int, md: int, limit: int)
    requires
        0 < mn,
        0 < md,
        mn < md * limit,
    ensures
        0 <= round_ratio(mn, md) <= limit,
{
    vstd::arithmetic::div_mod::lemma_fundamental_div_mod(2 * mn + md, 2 * md);
    vstd::arithmetic::div_mod::lemma_mod_pos_bound(2 * mn + md, 2 * md);
    let p = round_ratio(mn, md);
    assert(0 <= p <= limit) by (nonlinear_arith)
        requires
            2 * mn + md == (2 * md) * p + (2 * mn + md) % (2 * md),
            0 <= (2 * mn + md) % (2 * md) < 2 * md,
            0 < md,
            0 < mn,
            mn < md * limit,
    ;
}

/// Clamps `vn / vd` to `[0, max(0, mn / md)]` and rounds the result.
pub fn clamp_round_exec(vn: i128, vd: i128, mn: i128, md: i128) -> (r: i64)
    requires
        -0x1_0000_0000_0000_0000_0000_0000 < vn < 0x1_0000_0000_0000_0000_0000_0000,
        0 < vd < 0x100_0000_0000,
        -0x1_0000_0000_0000_0000_0000 < mn < 0x1_0000_0000_0000_0000_0000,
        0 < md < 0x1000,
        mn < md * OFFSET_LIMIT,
    ensures
        r == clamp_round(vn as int, vd as int, mn as int, md as int),
        0 <= r <= OFFSET_LIMIT,
{
    if vn <= 0 || mn <= 0 {
        return 0;
    }
    assert(0 < vn * md < 0x1000_0000_0000_0000_0000_0000_0000) by (nonlinear_arith)
        requires
            0 < vn < 0x1_0000_0000_0000_0000_0000_0000,
            0 < md < 0x1000,
    ;
    assert(0 < mn * vd < 0x100_0000_0000_0000_0000_0000_0000_0000) by (nonlinear_arith)
        requires
            0 < mn < 0x1_0000_0000_0000_0000_0000,
            0 < vd < 0x100_0000_0000,
    ;
    if vn * md >= mn * vd {
        proof {
            lemma_round_bound(mn as int, md as int, OFFSET_LIMIT as int);
        }
        ((2 * mn + md) / (2 * md)) as i64
    } else {
        proof {
            lemma_round_bound(mn as int, md as int, OFFSET_LIMIT as int);
            lemma_round_monotone(vn as int, vd as int, mn as int, md as int);
            assert(0 <= round_ratio(vn as int, vd as int)) by (nonlinear_arith)
                requires
                    0 < vn,
                    0 < vd,
            ;
        }
        ((2 * vn + vd) / (2 * vd)) as i64
    }
}

} // verus!
