use vstd::prelude::*;
use vstd::arithmetic::div_mod::{lemma_fundamental_div_mod, lemma_fundamental_div_mod_converse, lemma_mod_pos_bound};
use crate::geometry::{Point, Rect, Size};

verus! {

/// Largest page extent, tile size and page origin coordinate the index accepts.
pub const PAGE_LIMIT: i64 = 0x1_0000_0000;

/// A rasterized buffer produced upstream.
///
/// `screen_pos` is its pixel placement at the resolution it was rendered at,
/// `rect` the page rectangle it covers, `resolution` the world zoom it was
/// rendered at (in thousandths), and `surface` a handle to its pixels.
#[derive(Clone, Copy, Debug, PartialEq, Eq, Structural)]
pub struct Tile {
    pub screen_pos: Rect,
    pub rect: Rect,
    pub resolution: u32,
    pub surface: u64,
}

impl Tile {
    /// Bounded geometry and a positive resolution.
    pub open spec fn wf(self) -> bool {
        self.screen_pos.wf() && self.rect.wf() && self.resolution > 0
    }
}

/// One cached tile together with the page pixel it is anchored at.
#[derive(Clone, Copy, Debug, PartialEq, Eq, Structural)]
pub struct Slot {
    pub x: i64,
    pub y: i64,
    pub tile: Tile,
}

/// Spatial cache of rendered tiles over the page region
/// `[x, x + width) x [y, y + height)`, partitioned into square cells of side
/// `tile_size`. A cell is covered at a zoom when a tile recorded at that zoom
/// is anchored at the cell's top-left corner.
pub struct Quadtree {
    pub x: i64,
    pub y: i64,
    pub width: i64,
    pub height: i64,
    pub tile_size: i64,
    pub slots: Vec<Slot>,
}

/// The half-open range of cell indices, along one axis, that the query span
/// `[lo, lo + len)` meets inside the page span `[plo, plo + plen)`.
pub open spec fn cell_span(lo: int, len: int, plo: int, plen: int, ts: int) -> (int, int) {
    let a = if lo > plo { lo } else { plo };
    let b = if lo + len < plo + plen { lo + len } else { plo + plen };
    if a >= b {
        (0, 0)
    } else {
        ((a - plo) / ts, (b - 1 - plo) / ts + 1)
    }
}

impl Quadtree {
    pub open spec fn wf(self) -> bool {
        &&& 0 <= self.x < PAGE_LIMIT
        &&& 0 <= self.y < PAGE_LIMIT
        &&& 0 <= self.width < PAGE_LIMIT
        &&& 0 <= self.height < PAGE_LIMIT
        &&& 0 < self.tile_size < PAGE_LIMIT
        &&& forall|i: int| 0 <= i < self.slots@.len() ==> (#[trigger] self.slots@[i]).tile.wf()
        &&& forall|i: int| 0 <= i < self.slots@.len() ==> #[trigger] self.in_page(self.slots@[i].x as int, self.slots@[i].y as int)
        &&& forall|i: int, j: int| 0 <= i < j < self.slots@.len() ==> #[trigger] self.slots@[i].key() != #[trigger] self.slots@[j].key()
    }

    /// Whether the page pixel `(x, y)` lies inside the page.
    pub open spec fn in_page(self, x: int, y: int) -> bool {
        self.x <= x < self.x + self.width && self.y <= y < self.y + self.height
    }

    /// Some tile recorded at `zoom` is anchored at `(cx, cy)`.
    pub open spec fn has_valid(self, cx: int, cy: int, zoom: u32) -> bool {
        exists|i: int| 0 <= i < self.slots@.len() && #[trigger] self.slots@[i].matches(cx, cy) && self.slots@[i].tile.resolution == zoom
    }

    /// Some tile recorded at another zoom is anchored at `(cx, cy)`.
    pub open spec fn has_stale(self, cx: int, cy: int, zoom: u32) -> bool {
        exists|i: int| 0 <= i < self.slots@.len() && #[trigger] self.slots@[i].matches(cx, cy) && self.slots@[i].tile.resolution != zoom
    }

    /// The cached tiles, in iteration order.
    pub open spec fn tiles(self) -> Seq<Tile> {
        self.slots@.map_values(|s: Slot| s.tile)
    }

    /// The page rectangle of cell `(i, j)`, clipped to the page.
    pub open spec fn cell_rect(self, i: int, j: int) -> Rect {
        let cx = self.x + i * self.tile_size;
        let cy = self.y + j * self.tile_size;
        let w = if self.tile_size < self.x + self.width - cx { self.tile_size as int } else { self.x + self.width - cx };
        let h = if self.tile_size < self.y + self.height - cy { self.tile_size as int } else { self.y + self.height - cy };
        Rect { origin: Point { x: cx as i64, y: cy as i64 }, size: Size { width: w as i64, height: h as i64 } }
    }

    /// Column range of the cells that `vp` meets inside the page.
    pub open spec fn cols(self, vp: Rect) -> (int, int) {
        cell_span(vp.origin.x as int, vp.size.width as int, self.x as int, self.width as int, self.tile_size as int)
    }

    /// Row range of the cells that `vp` meets inside the page.
    pub open spec fn rows(self, vp: Rect) -> (int, int) {
        cell_span(vp.origin.y as int, vp.size.height as int, self.y as int, self.height as int, self.tile_size as int)
    }

    /// Number of cells that `vp` meets inside the page.
    pub open spec fn cell_count(self, vp: Rect) -> int {
        (self.cols(vp).1 - self.cols(vp).0) * (self.rows(vp).1 - self.rows(vp).0)
    }

    /// The `k`-th cell that `vp` meets, in row-major order.
    pub open spec fn cell_at(self, vp: Rect, k: int) -> (int, int) {
        let ni = self.cols(vp).1 - self.cols(vp).0;
        (self.cols(vp).0 + k % ni, self.rows(vp).0 + k / ni)
    }

    pub open spec fn cell_missing(self, vp: Rect, k: int, zoom: u32) -> bool {
        let c = self.cell_at(vp, k);
        !self.has_valid(self.x + c.0 * self.tile_size, self.y + c.1 * self.tile_size, zoom)
    }

    pub open spec fn cell_stale(self, vp: Rect, k: int, zoom: u32) -> bool {
        let c = self.cell_at(vp, k);
        self.cell_missing(vp, k, zoom) && self.has_stale(self.x + c.0 * self.tile_size, self.y + c.1 * self.tile_size, zoom)
    }

    /// Rectangles of the first `n` cells met by `vp` that have no tile at `zoom`.
    pub open spec fn missing_upto(self, vp: Rect, zoom: u32, n: nat) -> Seq<Rect>
        decreases n,
    {
        if n == 0 {
            Seq::empty()
        } else {
            let prev = self.missing_upto(vp, zoom, (n - 1) as nat);
            if self.cell_missing(vp, n - 1, zoom) {
                let c = self.cell_at(vp, n - 1);
                prev.push(self.cell_rect(c.0, c.1))
            } else {
                prev
            }
        }
    }

    /// Whether one of the first `n` cells met by `vp` lacks a tile at `zoom`
    /// but holds one recorded at another zoom.
    pub open spec fn redisplay_upto(self, vp: Rect, zoom: u32, n: nat) -> bool
        decreases n,
    {
        if n == 0 {
            false
        } else {
            self.redisplay_upto(vp, zoom, (n - 1) as nat) || self.cell_stale(vp, n - 1, zoom)
        }
    }

    /// The rectangles that `get_tile_rects(vp, zoom)` reports missing.
    pub open spec fn missing_spec(self, vp: Rect, zoom: u32) -> Seq<Rect> {
        self.missing_upto(vp, zoom, self.cell_count(vp) as nat)
    }

    /// Whether `get_tile_rects(vp, zoom)` asks for a redisplay.
    pub open spec fn redisplay_spec(self, vp: Rect, zoom: u32) -> bool {
        self.redisplay_upto(vp, zoom, self.cell_count(vp) as nat)
    }
}


proof fn lemma_floor_mul(i: int, n: int, ts: int)
    requires
        0 <= i <= n / ts,
        0 <= n,
        0 < ts,
    ensures
        0 <= i * ts <= n,
{
    lemma_fundamental_div_mod(n, ts);
    lemma_mod_pos_bound(n, ts);
    assert(i * ts <= (n / ts) * ts) by (nonlinear_arith)
        requires
            i <= n / ts,
            0 < ts,
    ;
    assert(0 <= i * ts) by (nonlinear_arith)
        requires
            0 <= i,
            0 < ts,
    ;
}


/// A tile recorded at zoom `zoom` and anchored at a cell corner inside the
/// page satisfies a query over that cell at that zoom: nothing is missing
/// and no redisplay is asked for.
pub proof fn lemma_round_trip(q: Quadtree, x: int, y: int, zoom: u32)
    requires
        q.wf(),
        q.in_page(x, y),
        (x - q.x) % (q.tile_size as int) == 0,
        (y - q.y) % (q.tile_size as int) == 0,
        q.has_valid(x, y, zoom),
    ensures
        ({
            let vp = Rect { origin: Point { x: x as i64, y: y as i64 }, size: Size { width: q.tile_size, height: q.tile_size } };
            q.missing_spec(vp, zoom).len() == 0 && !q.redisplay_spec(vp, zoom)
        }),
{
    let vp = Rect { origin: Point { x: x as i64, y: y as i64 }, size: Size { width: q.tile_size, height: q.tile_size } };
    let ts = q.tile_size as int;
    lemma_one_cell(x, q.x as int, q.width as int, ts);
    lemma_one_cell(y, q.y as int, q.height as int, ts);
    let (i0, i1) = q.cols(vp);
    let (j0, j1) = q.rows(vp);
    assert(vp.origin.x as int == x && vp.origin.y as int == y);
    assert(i1 - i0 == 1 && j1 - j0 == 1);
    assert(q.cell_count(vp) == 1) by (nonlinear_arith)
        requires
            q.cell_count(vp) == (i1 - i0) * (j1 - j0),
            i1 - i0 == 1 && j1 - j0 == 1,
    ;
    assert(0int % 1 == 0 && 0int / 1 == 0);
    assert(q.cell_at(vp, 0) == (i0, j0));
    assert(q.x + i0 * ts == x);
    assert(q.y + j0 * ts == y);
    assert(!q.cell_missing(vp, 0, zoom));
    assert(q.missing_upto(vp, zoom, 0) == Seq::<Rect>::empty());
    assert(q.missing_upto(vp, zoom, 1) == q.missing_upto(vp, zoom, 0));
    assert(!q.redisplay_upto(vp, zoom, 0));
    assert(!q.cell_stale(vp, 0, zoom));
    assert(!q.redisplay_upto(vp, zoom, 1));
}

proof fn lemma_one_cell(x: int, px: int, pw: int, ts: int)
    requires
        px <= x < px + pw,
        (x - px) % ts == 0,
        0 < ts,
    ensures
        cell_span(x, ts, px, pw, ts).1 == cell_span(x, ts, px, pw, ts).0 + 1,
        px + cell_span(x, ts, px, pw, ts).0 * ts == x,
{
    let c = (x - px) / ts;
    lemma_fundamental_div_mod(x - px, ts);
    assert(x - px == c * ts) by (nonlinear_arith)
        requires
            x - px == ts * c + (x - px) % ts,
            (x - px) % ts == 0,
    ;
    let b = if x + ts < px + pw { x + ts } else { px + pw };
    assert(c * ts <= b - 1 - px < c * ts + ts);
    lemma_fundamental_div_mod_converse(b - 1 - px, ts, c, b - 1 - px - c * ts);
}

fn span(lo: i64, len: i64, plo: i64, plen: i64, ts: i64) -> (r: (i64, i64))
    requires
        -crate::geometry::COORD_LIMIT < lo < crate::geometry::COORD_LIMIT,
        0 <= len < crate::geometry::COORD_LIMIT,
        0 <= plo < PAGE_LIMIT,
        0 <= plen < PAGE_LIMIT,
        0 < ts < PAGE_LIMIT,
    ensures
        r.0 == cell_span(lo as int, len as int, plo as int, plen as int, ts as int).0,
        r.1 == cell_span(lo as int, len as int, plo as int, plen as int, ts as int).1,
        0 <= r.0 <= r.1,
        r.0 < r.1 ==> (r.1 - 1) * ts <= plen - 1,
{
    let a: i64 = if lo > plo { lo } else { plo };
    let b: i64 = if lo + len < plo + plen { lo + len } else { plo + plen };
    if a >= b {
        (0, 0)
    } else {
        proof {
            lemma_floor_mul((b - 1 - plo) / (ts as int), (b - 1 - plo) as int, ts as int);
            lemma_floor_mul((a - plo) / (ts as int), (a - plo) as int, ts as int);
            vstd::arithmetic::div_mod::lemma_div_is_ordered((a - plo) as int, (b - 1 - plo) as int, ts as int);
        }
        ((a - plo) / ts, (b - 1 - plo) / ts + 1)
    }
}

impl Quadtree {
    /// An empty index over `[x, x + width) x [y, y + height)` with cells of
    /// side `tile_size`.
    pub fn new(x: u32, y: u32, width: u32, height: u32, tile_size: u32) -> (r: Quadtree)
        requires
            tile_size > 0,
        ensures
            r.wf(),
            r.x == x,
            r.y == y,
            r.width == width,
            r.height == height,
            r.tile_size == tile_size,
            r.slots@.len() == 0,
    {
        Quadtree { x: x as i64, y: y as i64, width: width as i64, height: height as i64, tile_size: tile_size as i64, slots: Vec::new() }
    }

    /// Records `tile` as anchored at page pixel `(x, y)` and rendered at
    /// `resolution`, replacing a tile already recorded at the same anchor and
    /// resolution. An anchor outside the page is refused and nothing changes.
    pub fn add_tile(&mut self, x: i64, y: i64, resolution: u32, tile: Tile) -> (inserted: bool)
        requires
            old(self).wf(),
            tile.screen_pos.wf(),
            tile.rect.wf(),
            resolution > 0,
        ensures
            final(self).wf(),
            final(self).x == old(self).x,
            final(self).y == old(self).y,
            final(self).width == old(self).width,
            final(self).height == old(self).height,
            final(self).tile_size == old(self).tile_size,
            inserted == old(self).in_page(x as int, y as int),
            !inserted ==> final(self).slots@ == old(self).slots@,
            old(self).slots@.len() <= final(self).slots@.len() <= old(self).slots@.len() + 1,
            forall|j: int| 0 <= j < old(self).slots@.len() ==> (#[trigger] final(self).slots@[j]).key() == old(self).slots@[j].key(),
            forall|j: int| 0 <= j < final(self).slots@.len() ==> (#[trigger] final(self).slots@[j]) == (Slot { x, y, tile: Tile { screen_pos: tile.screen_pos, rect: tile.rect, resolution, surface: tile.surface } })
                || (j < old(self).slots@.len() && final(self).slots@[j] == old(self).slots@[j]),
            inserted ==> exists|j: int| 0 <= j < final(self).slots@.len() && (#[trigger] final(self).slots@[j]) == (Slot { x, y, tile: Tile { screen_pos: tile.screen_pos, rect: tile.rect, resolution, surface: tile.surface } }),
            inserted ==> ({
                let s = Slot { x, y, tile: Tile { screen_pos: tile.screen_pos, rect: tile.rect, resolution, surface: tile.surface } };
                (exists|i: int| 0 <= i < old(self).slots@.len() && #[trigger] old(self).slots@[i].key() == s.key()
                    && final(self).slots@ == old(self).slots@.update(i, s))
                || ((forall|i: int| 0 <= i < old(self).slots@.len() ==> #[trigger] old(self).slots@[i].key() != s.key())
                    && final(self).slots@ == old(self).slots@.push(s))
            }),
    {
        let inside = self.x <= x && x < self.x + self.width && self.y <= y && y < self.y + self.height;
        if !inside {
            return false;
        }
        let s = Slot { x, y, tile: Tile { screen_pos: tile.screen_pos, rect: tile.rect, resolution, surface: tile.surface } };
        let mut i: usize = 0;
        while i < self.slots.len()
            invariant
                self == old(self),
                self.wf(),
                self.in_page(x as int, y as int),
                s.tile.wf(),
                s == (Slot { x, y, tile: Tile { screen_pos: tile.screen_pos, rect: tile.rect, resolution, surface: tile.surface } }),
                0 <= i <= self.slots@.len(),
                forall|k: int| 0 <= k < i ==> #[trigger] self.slots@[k].key() != s.key(),
            decreases self.slots@.len() - i,
        {
            if self.slots[i].x == x && self.slots[i].y == y && self.slots[i].tile.resolution == resolution {
                let ghost before = self.slots@;
                assert(forall|k: int| 0 <= k < before.len() ==> (#[trigger] before[k]).tile.wf());
                assert(forall|k: int| 0 <= k < before.len() ==> old(self).in_page(#[trigger] before[k].x as int, before[k].y as int));
                assert(s.key() == before[i as int].key());
                self.slots.set(i, s);
                assert(forall|k: int| 0 <= k < before.len() ==> #[trigger] self.slots@[k].key() == before[k].key());
                assert(forall|k: int| 0 <= k < before.len() ==> self.slots@[k].x == before[k].x && self.slots@[k].y == before[k].y);
                assert(forall|k: int| 0 <= k < before.len() ==> (#[trigger] self.slots@[k]).tile.wf());
                assert(self.slots@ == before.update(i as int, s));
                assert(self.slots@[i as int] == s);
                assert(forall|k: int| 0 <= k < self.slots@.len() ==> #[trigger] self.in_page(self.slots@[k].x as int, self.slots@[k].y as int));
                assert(forall|k: int, j: int| 0 <= k < j < self.slots@.len() ==> #[trigger] self.slots@[k].key() != #[trigger] self.slots@[j].key());
                return true;
            }
            i = i + 1;
        }
        let ghost before = self.slots@;
        assert(forall|k: int| 0 <= k < before.len() ==> (#[trigger] before[k]).tile.wf());
        assert(forall|k: int| 0 <= k < before.len() ==> old(self).in_page(#[trigger] before[k].x as int, before[k].y as int));
        self.slots.push(s);
        assert(forall|k: int| 0 <= k < before.len() ==> #[trigger] self.slots@[k] == before[k]);
        assert(self.slots@[before.len() as int] == s);
        assert(forall|k: int| 0 <= k < self.slots@.len() ==> (#[trigger] self.slots@[k]).tile.wf());
        assert(forall|k: int| 0 <= k < self.slots@.len() ==> #[trigger] self.in_page(self.slots@[k].x as int, self.slots@[k].y as int));
        assert(forall|k: int, j: int| 0 <= k < j < self.slots@.len() ==> #[trigger] self.slots@[k].key() != #[trigger] self.slots@[j].key());
        true
    }


    /// Gives the page a new width and height and evicts, keeping the order of
    /// the rest, every tile whose anchor falls outside the new page.
    pub fn resize(&mut self, width: u32, height: u32)
        requires
            old(self).wf(),
        ensures
            final(self).wf(),
            final(self).x == old(self).x,
            final(self).y == old(self).y,
            final(self).width == width,
            final(self).height == height,
            final(self).tile_size == old(self).tile_size,
            final(self).slots@ == old(self).slots@.filter(|s: Slot| final(self).in_page(s.x as int, s.y as int)),
            forall|e: int| 0 <= e < final(self).slots@.len() ==> old(self).slots@.contains(#[trigger] final(self).slots@[e]),
    {
        let ghost pred = |s: Slot| self.x <= s.x < self.x + width && self.y <= s.y < self.y + height;
        let mut kept: Vec<Slot> = Vec::new();
        let mut i: usize = 0;
        let ghost orig = self.slots@;
        while i < self.slots.len()
            invariant
                self.wf(),
                self.slots@ == old(self).slots@,
                pred == (|s: Slot| self.x <= s.x < self.x + width && self.y <= s.y < self.y + height),
                0 <= i <= self.slots@.len(),
                kept@ == self.slots@.subrange(0, i as int).filter(pred),
                forall|e: int| 0 <= e < kept@.len() ==> exists|k: int| 0 <= k < i && #[trigger] kept@[e] == self.slots@[k],
                forall|e: int| 0 <= e < kept@.len() ==> pred(#[trigger] kept@[e]),
                forall|e: int, f: int| 0 <= e < f < kept@.len() ==> #[trigger] kept@[e].key() != #[trigger] kept@[f].key(),
            decreases self.slots@.len() - i,
        {
            let s = self.slots[i];
            proof {
                assert(self.slots@.subrange(0, i + 1) == self.slots@.subrange(0, i as int).push(s));
                self.slots@.subrange(0, i as int).lemma_filter_push(s, pred);
            }
            if self.x <= s.x && s.x < self.x + width as i64 && self.y <= s.y && s.y < self.y + height as i64 {
                let ghost before = kept@;
                proof {
                    assert forall|e: int| 0 <= e < before.len() implies #[trigger] before[e].key() != s.key() by {
                        let k = choose|k: int| 0 <= k < i && #[trigger] before[e] == self.slots@[k];
                        assert(self.slots@[k].key() != self.slots@[i as int].key());
                    }
                }
                kept.push(s);
                proof {
                    assert forall|e: int| 0 <= e < kept@.len() implies exists|k: int| 0 <= k < i + 1 && #[trigger] kept@[e] == self.slots@[k] by {
                        if e < before.len() {
                            assert(kept@[e] == before[e]);
                            let k = choose|k: int| 0 <= k < i && #[trigger] before[e] == self.slots@[k];
                            assert(0 <= k < i + 1);
                        } else {
                            assert(kept@[e] == self.slots@[i as int]);
                        }
                    }
                    assert forall|e: int, f: int| 0 <= e < f < kept@.len() implies #[trigger] kept@[e].key() != #[trigger] kept@[f].key() by {
                        if f < before.len() {
                            assert(kept@[e] == before[e] && kept@[f] == before[f]);
                        } else {
                            assert(kept@[e] == before[e] && kept@[f] == s);
                        }
                    }
                }
            } else {
                proof {
                    assert forall|e: int| 0 <= e < kept@.len() implies exists|k: int| 0 <= k < i + 1 && #[trigger] kept@[e] == self.slots@[k] by {
                        let k = choose|k: int| 0 <= k < i && #[trigger] kept@[e] == self.slots@[k];
                        assert(0 <= k < i + 1);
                    }
                }
            }
            i = i + 1;
        }
        proof {
            assert(self.slots@.subrange(0, i as int) == self.slots@);
            assert forall|e: int| 0 <= e < kept@.len() implies (#[trigger] kept@[e]).tile.wf() by {
                let k = choose|k: int| 0 <= k < i && #[trigger] kept@[e] == self.slots@[k];
                assert(self.slots@[k].tile.wf());
            }
        }
        self.width = width as i64;
        self.height = height as i64;
        self.slots = kept;
        proof {
            assert forall|e: int| 0 <= e < self.slots@.len() implies #[trigger] self.in_page(self.slots@[e].x as int, self.slots@[e].y as int) by {
                assert(pred(self.slots@[e]));
            }
            assert(pred == (|s: Slot| self.in_page(s.x as int, s.y as int)));
            assert forall|e: int| 0 <= e < self.slots@.len() implies old(self).slots@.contains(#[trigger] self.slots@[e]) by {
                assert(self.slots@[e] == kept@[e]);
                let k = choose|k: int| 0 <= k < i && #[trigger] kept@[e] == old(self).slots@[k];
                assert(0 <= k < old(self).slots@.len() && self.slots@[e] == old(self).slots@[k]);
            }
        }
    }

    /// Every cached tile, in iteration order.
    pub fn get_all_tiles(&self) -> (r: Vec<Tile>)
        ensures
            r@ == self.tiles(),
    {
        let mut r: Vec<Tile> = Vec::new();
        let mut i: usize = 0;
        while i < self.slots.len()
            invariant
                0 <= i <= self.slots@.len(),
                r@.len() == i,
                forall|k: int| 0 <= k < i ==> #[trigger] r@[k] == self.slots@[k].tile,
            decreases self.slots@.len() - i,
        {
            r.push(self.slots[i].tile);
            i = i + 1;
        }
        assert(r@ =~= self.tiles());
        r
    }


    /// The cells met by `viewport` inside the page, in row-major order, that
    /// hold no tile recorded at `zoom` (as page-clipped rectangles), and
    /// whether one of those cells holds a tile recorded at another zoom that
    /// could be shown meanwhile.
    pub fn get_tile_rects(&self, viewport: Rect, zoom: u32) -> (r: (Vec<Rect>, bool))
        requires
            self.wf(),
            viewport.wf(),
        ensures
            r.0@ == self.missing_spec(viewport, zoom),
            r.1 == self.redisplay_spec(viewport, zoom),
    {
        let ts = self.tile_size;
        let (i0, i1) = span(viewport.origin.x, viewport.size.width, self.x, self.width, ts);
        let (j0, j1) = span(viewport.origin.y, viewport.size.height, self.y, self.height, ts);
        let mut missing: Vec<Rect> = Vec::new();
        let mut redisplay = false;
        if i0 == i1 || j0 == j1 {
            assert(self.cell_count(viewport) == 0) by (nonlinear_arith)
                requires
                    self.cell_count(viewport) == (i1 - i0) * (j1 - j0),
                    i0 == i1 || j0 == j1,
            ;
            return (missing, redisplay);
        }
        let ni: i64 = i1 - i0;
        let ghost mut k: int = 0;
        let mut j: i64 = j0;
        while j < j1
            invariant
                self.wf(),
                viewport.wf(),
                ts == self.tile_size,
                i0 == self.cols(viewport).0 && i1 == self.cols(viewport).1,
                j0 == self.rows(viewport).0 && j1 == self.rows(viewport).1,
                0 <= i0 < i1,
                0 <= j0 < j1,
                (i1 - 1) * ts <= self.width - 1,
                (j1 - 1) * ts <= self.height - 1,
                ni == i1 - i0,
                j0 <= j <= j1,
                k == (j - j0) * ni,
                missing@ == self.missing_upto(viewport, zoom, k as nat),
                redisplay == self.redisplay_upto(viewport, zoom, k as nat),
            decreases j1 - j,
        {
            let mut i: i64 = i0;
            assert(j * ts <= self.height - 1) by (nonlinear_arith)
                requires
                    j <= j1 - 1,
                    0 <= j,
                    (j1 - 1) * ts <= self.height - 1,
                    0 < ts,
            ;
            assert(0 <= j * ts) by (nonlinear_arith)
                requires
                    0 <= j,
                    0 < ts,
            ;
            let cy: i64 = self.y + j * ts;
            let h: i64 = if ts < self.y + self.height - cy { ts } else { self.y + self.height - cy };
            while i < i1
                invariant
                    self.wf(),
                    viewport.wf(),
                    ts == self.tile_size,
                    i0 == self.cols(viewport).0 && i1 == self.cols(viewport).1,
                    j0 == self.rows(viewport).0 && j1 == self.rows(viewport).1,
                    0 <= i0 < i1,
                    0 <= j0 <= j < j1,
                    (i1 - 1) * ts <= self.width - 1,
                    ni == i1 - i0,
                    i0 <= i <= i1,
                    cy == self.y + j * ts,
                    h == (if ts < self.y + self.height - cy { ts as int } else { self.y + self.height - cy }),
                    k == (j - j0) * ni + (i - i0),
                    missing@ == self.missing_upto(viewport, zoom, k as nat),
                    redisplay == self.redisplay_upto(viewport, zoom, k as nat),
                decreases i1 - i,
            {
                assert(i * ts <= self.width - 1) by (nonlinear_arith)
                    requires
                        i <= i1 - 1,
                        0 <= i,
                        (i1 - 1) * ts <= self.width - 1,
                        0 < ts,
                ;
                assert(0 <= i * ts) by (nonlinear_arith)
                    requires
                        0 <= i,
                        0 < ts,
                ;
                let cx: i64 = self.x + i * ts;
                let w: i64 = if ts < self.x + self.width - cx { ts } else { self.x + self.width - cx };
                let (valid, stale) = self.probe(cx, cy, zoom);
                proof {
                    lemma_fundamental_div_mod_converse(k, ni as int, (j - j0) as int, (i - i0) as int);
                    assert(self.cell_at(viewport, k) == (i as int, j as int));
                }
                if !valid {
                    missing.push(Rect { origin: Point { x: cx, y: cy }, size: Size { width: w, height: h } });
                    if stale {
                        redisplay = true;
                    }
                }
                i = i + 1;
                proof {
                    k = k + 1;
                }
            }
            proof {
                assert(k == (j + 1 - j0) * ni) by (nonlinear_arith)
                    requires
                        k == (j - j0) * ni + (i1 - i0),
                        ni == i1 - i0,
                ;
            }
            j = j + 1;
        }
        assert(k == self.cell_count(viewport)) by (nonlinear_arith)
            requires
                k == (j1 - j0) * ni,
                ni == i1 - i0,
                self.cell_count(viewport) == (i1 - i0) * (j1 - j0),
        ;
        (missing, redisplay)
    }

    /// Whether cell anchor `(cx, cy)` holds a tile at `zoom`, and whether it
    /// holds one at another zoom.
    fn probe(&self, cx: i64, cy: i64, zoom: u32) -> (r: (bool, bool))
        ensures
            r.0 == self.has_valid(cx as int, cy as int, zoom),
            r.1 == self.has_stale(cx as int, cy as int, zoom),
    {
        let mut valid = false;
        let mut stale = false;
        let mut i: usize = 0;
        while i < self.slots.len()
            invariant
                0 <= i <= self.slots@.len(),
                valid == exists|k: int| 0 <= k < i && #[trigger] self.slots@[k].matches(cx as int, cy as int) && self.slots@[k].tile.resolution == zoom,
                stale == exists|k: int| 0 <= k < i && #[trigger] self.slots@[k].matches(cx as int, cy as int) && self.slots@[k].tile.resolution != zoom,
            decreases self.slots@.len() - i,
        {
            let s = self.slots[i];
            if s.x == cx && s.y == cy {
                assert(self.slots@[i as int].matches(cx as int, cy as int));
                if s.tile.resolution == zoom {
                    valid = true;
                } else {
                    stale = true;
                }
            }
            i = i + 1;
        }
        (valid, stale)
    }
}

impl Slot {
    pub open spec fn key(self) -> (int, int, u32) {
        (self.x as int, self.y as int, self.tile.resolution)
    }

    pub open spec fn matches(self, cx: int, cy: int) -> bool {
        self.x == cx && self.y == cy
    }
}

/// Facts about the cell ranges of a query: each range ends at a cell that
/// still starts inside the page.
proof fn lemma_span_facts(lo: int, len: int, plo: int, plen: int, ts: int)
    requires
        0 < ts,
        0 <= len,
        0 <= plen,
    ensures
        0 <= cell_span(lo, len, plo, plen, ts).0 <= cell_span(lo, len, plo, plen, ts).1,
        cell_span(lo, len, plo, plen, ts).0 < cell_span(lo, len, plo, plen, ts).1 ==>
            (cell_span(lo, len, plo, plen, ts).1 - 1) * ts <= plen - 1,
{
    let a = if lo > plo { lo } else { plo };
    let b = if lo + len < plo + plen { lo + len } else { plo + plen };
    if a < b {
        lemma_floor_mul((b - 1 - plo) / ts, b - 1 - plo, ts);
        vstd::arithmetic::div_mod::lemma_div_is_ordered(a - plo, b - 1 - plo, ts);
        lemma_floor_mul((a - plo) / ts, a - plo, ts);
    }
}

/// A point of the query and the page lies in the cell range, in the cell
/// that holds it.
proof fn lemma_point_cell(x: int, lo: int, len: int, plo: int, plen: int, ts: int)
    requires
        0 < ts,
        lo <= x < lo + len,
        plo <= x < plo + plen,
    ensures
        cell_span(lo, len, plo, plen, ts).0 <= (x - plo) / ts < cell_span(lo, len, plo, plen, ts).1,
        plo + ((x - plo) / ts) * ts <= x < plo + ((x - plo) / ts) * ts + ts,
{
    let a = if lo > plo { lo } else { plo };
    let b = if lo + len < plo + plen { lo + len } else { plo + plen };
    vstd::arithmetic::div_mod::lemma_div_is_ordered(a - plo, x - plo, ts);
    vstd::arithmetic::div_mod::lemma_div_is_ordered(x - plo, b - 1 - plo, ts);
    lemma_fundamental_div_mod(x - plo, ts);
    lemma_mod_pos_bound(x - plo, ts);
}

impl Quadtree {
    /// Row-major position `k` of the query's cells is cell `cell_at(k)`,
    /// inside the ranges, and positions map to cells one to one.
    proof fn lemma_cell_at(self, vp: Rect, k: int)
        requires
            self.wf(),
            vp.wf(),
            0 <= k < self.cell_count(vp),
        ensures
            self.cols(vp).0 <= self.cell_at(vp, k).0 < self.cols(vp).1,
            self.rows(vp).0 <= self.cell_at(vp, k).1 < self.rows(vp).1,
            k == (self.cell_at(vp, k).1 - self.rows(vp).0) * (self.cols(vp).1 - self.cols(vp).0)
                + (self.cell_at(vp, k).0 - self.cols(vp).0),
    {
        let (i0, i1) = self.cols(vp);
        let (j0, j1) = self.rows(vp);
        lemma_span_facts(vp.origin.x as int, vp.size.width as int, self.x as int, self.width as int, self.tile_size as int);
        lemma_span_facts(vp.origin.y as int, vp.size.height as int, self.y as int, self.height as int, self.tile_size as int);
        let ni = i1 - i0;
        let nj = j1 - j0;
        assert(ni > 0 && nj > 0) by (nonlinear_arith)
            requires
                0 <= k < ni * nj,
                ni >= 0,
                nj >= 0,
        ;
        lemma_fundamental_div_mod(k, ni);
        lemma_mod_pos_bound(k, ni);
        assert(0 <= k / ni < nj) by (nonlinear_arith)
            requires
                k == ni * (k / ni) + k % ni,
                0 <= k % ni < ni,
                0 <= k < ni * nj,
        ;
        assert(k == (k / ni) * ni + k % ni) by (nonlinear_arith)
            requires
                k == ni * (k / ni) + k % ni,
        ;
    }

    /// The clipped rectangle of an in-range cell, as plain bounds.
    proof fn lemma_cell_rect(self, vp: Rect, i: int, j: int)
        requires
            self.wf(),
            vp.wf(),
            self.cols(vp).0 <= i < self.cols(vp).1,
            self.rows(vp).0 <= j < self.rows(vp).1,
        ensures
            self.cell_rect(i, j).origin.x == self.x + i * self.tile_size,
            self.cell_rect(i, j).origin.y == self.y + j * self.tile_size,
            self.cell_rect(i, j).size.width == (if self.tile_size < self.x + self.width - (self.x + i * self.tile_size) { self.tile_size as int } else { self.x + self.width - (self.x + i * self.tile_size) }),
            self.cell_rect(i, j).size.height == (if self.tile_size < self.y + self.height - (self.y + j * self.tile_size) { self.tile_size as int } else { self.y + self.height - (self.y + j * self.tile_size) }),
    {
        let ts = self.tile_size as int;
        lemma_span_facts(vp.origin.x as int, vp.size.width as int, self.x as int, self.width as int, ts);
        lemma_span_facts(vp.origin.y as int, vp.size.height as int, self.y as int, self.height as int, ts);
        let (i0, i1) = self.cols(vp);
        let (j0, j1) = self.rows(vp);
        assert(0 <= i * ts <= self.width - 1) by (nonlinear_arith)
            requires
                0 <= i <= i1 - 1,
                (i1 - 1) * ts <= self.width - 1,
                0 < ts,
        ;
        assert(0 <= j * ts <= self.height - 1) by (nonlinear_arith)
            requires
                0 <= j <= j1 - 1,
                (j1 - 1) * ts <= self.height - 1,
                0 < ts,
        ;
    }

    /// Rectangles of two different in-range cells share no point.
    proof fn lemma_cells_disjoint(self, vp: Rect, i: int, j: int, i2: int, j2: int)
        requires
            self.wf(),
            vp.wf(),
            self.cols(vp).0 <= i < self.cols(vp).1,
            self.rows(vp).0 <= j < self.rows(vp).1,
            self.cols(vp).0 <= i2 < self.cols(vp).1,
            self.rows(vp).0 <= j2 < self.rows(vp).1,
            i != i2 || j != j2,
        ensures
            self.cell_rect(i, j).disjoint(self.cell_rect(i2, j2)),
    {
        let ts = self.tile_size as int;
        self.lemma_cell_rect(vp, i, j);
        self.lemma_cell_rect(vp, i2, j2);
        let r1 = self.cell_rect(i, j);
        let r2 = self.cell_rect(i2, j2);
        assert forall|x: int, y: int| !(#[trigger] r1.contains_spec(x, y) && #[trigger] r2.contains_spec(x, y)) by {
            if i < i2 {
                assert(i * ts + ts <= i2 * ts) by (nonlinear_arith)
                    requires
                        i < i2,
                        0 < ts,
                ;
            } else if i2 < i {
                assert(i2 * ts + ts <= i * ts) by (nonlinear_arith)
                    requires
                        i2 < i,
                        0 < ts,
                ;
            } else if j < j2 {
                assert(j * ts + ts <= j2 * ts) by (nonlinear_arith)
                    requires
                        j < j2,
                        0 < ts,
                ;
            } else {
                assert(j2 * ts + ts <= j * ts) by (nonlinear_arith)
                    requires
                        j2 < j,
                        0 < ts,
                ;
            }
        }
    }

    /// Every rectangle of `missing_upto(n)` is the rectangle of one of the
    /// first `n` cells, and no two of them share a point.
    proof fn lemma_missing_disjoint(self, vp: Rect, zoom: u32, n: nat)
        requires
            self.wf(),
            vp.wf(),
            n <= self.cell_count(vp),
        ensures
            forall|e: int| 0 <= e < self.missing_upto(vp, zoom, n).len() ==> exists|k: int| 0 <= k < n
                && #[trigger] self.missing_upto(vp, zoom, n)[e] == self.cell_rect(self.cell_at(vp, k).0, self.cell_at(vp, k).1),
            forall|a: int, b: int| 0 <= a < b < self.missing_upto(vp, zoom, n).len() ==>
                (#[trigger] self.missing_upto(vp, zoom, n)[a]).disjoint(#[trigger] self.missing_upto(vp, zoom, n)[b]),
        decreases n,
    {
        if n > 0 {
            let m = (n - 1) as nat;
            self.lemma_missing_disjoint(vp, zoom, m);
            let prev = self.missing_upto(vp, zoom, m);
            let cur = self.missing_upto(vp, zoom, n);
            let c = self.cell_at(vp, m as int);
            self.lemma_cell_at(vp, m as int);
            if self.cell_missing(vp, m as int, zoom) {
                assert(cur == prev.push(self.cell_rect(c.0, c.1)));
                assert forall|e: int| 0 <= e < cur.len() implies exists|k: int| 0 <= k < n
                    && #[trigger] cur[e] == self.cell_rect(self.cell_at(vp, k).0, self.cell_at(vp, k).1) by {
                    if e < prev.len() {
                        assert(cur[e] == prev[e]);
                        let k = choose|k: int| 0 <= k < m && #[trigger] prev[e] == self.cell_rect(self.cell_at(vp, k).0, self.cell_at(vp, k).1);
                        assert(0 <= k < n && cur[e] == self.cell_rect(self.cell_at(vp, k).0, self.cell_at(vp, k).1));
                    } else {
                        assert(cur[e] == self.cell_rect(self.cell_at(vp, m as int).0, self.cell_at(vp, m as int).1));
                    }
                }
                assert forall|a: int, b: int| 0 <= a < b < cur.len() implies (#[trigger] cur[a]).disjoint(#[trigger] cur[b]) by {
                    if b < prev.len() {
                        assert(cur[a] == prev[a] && cur[b] == prev[b]);
                    } else {
                        assert(cur[a] == prev[a]);
                        let k = choose|k: int| 0 <= k < m && #[trigger] prev[a] == self.cell_rect(self.cell_at(vp, k).0, self.cell_at(vp, k).1);
                        self.lemma_cell_at(vp, k);
                        let ck = self.cell_at(vp, k);
                        assert(ck.0 != c.0 || ck.1 != c.1);
                        self.lemma_cells_disjoint(vp, ck.0, ck.1, c.0, c.1);
                    }
                }
            } else {
                assert forall|e: int| 0 <= e < cur.len() implies exists|k: int| 0 <= k < n
                    && #[trigger] cur[e] == self.cell_rect(self.cell_at(vp, k).0, self.cell_at(vp, k).1) by {
                    let k = choose|k: int| 0 <= k < m && #[trigger] prev[e] == self.cell_rect(self.cell_at(vp, k).0, self.cell_at(vp, k).1);
                    assert(cur[e] == prev[e]);
                    assert(0 <= k < n && cur[e] == self.cell_rect(self.cell_at(vp, k).0, self.cell_at(vp, k).1));
                }
            }
        }
    }

    /// Each of the first `n` cells without a tile at `zoom` has its rectangle
    /// in `missing_upto(n)`.
    proof fn lemma_missing_has(self, vp: Rect, zoom: u32, n: nat, k: int)
        requires
            0 <= k < n,
            self.cell_missing(vp, k, zoom),
        ensures
            exists|e: int| 0 <= e < self.missing_upto(vp, zoom, n).len()
                && #[trigger] self.missing_upto(vp, zoom, n)[e] == self.cell_rect(self.cell_at(vp, k).0, self.cell_at(vp, k).1),
        decreases n,
    {
        let m = (n - 1) as nat;
        let prev = self.missing_upto(vp, zoom, m);
        let cur = self.missing_upto(vp, zoom, n);
        if k < m {
            self.lemma_missing_has(vp, zoom, m, k);
            let e = choose|e: int| 0 <= e < prev.len() && #[trigger] prev[e] == self.cell_rect(self.cell_at(vp, k).0, self.cell_at(vp, k).1);
            if self.cell_missing(vp, m as int, zoom) {
                let c = self.cell_at(vp, m as int);
                assert(cur == prev.push(self.cell_rect(c.0, c.1)));
                assert(cur[e] == prev[e]);
            }
        } else {
            let c = self.cell_at(vp, m as int);
            assert(cur == prev.push(self.cell_rect(c.0, c.1)));
            assert(cur[prev.len() as int] == self.cell_rect(c.0, c.1));
        }
    }
}

/// The rectangles reported missing are page-clipped cells of the query;
/// they never overlap, and every point of
/// the query inside the page lies in one of them or in a cell holding a tile
/// recorded at the queried zoom. Their order is row-major by the definition
/// of `missing_spec`.
pub proof fn lemma_missing_cover(q: Quadtree, vp: Rect, zoom: u32)
    requires
        q.wf(),
        vp.wf(),
    ensures
        forall|e: int| 0 <= e < q.missing_spec(vp, zoom).len() ==> exists|k: int| 0 <= k < q.cell_count(vp)
            && #[trigger] q.missing_spec(vp, zoom)[e] == q.cell_rect(q.cell_at(vp, k).0, q.cell_at(vp, k).1),
        forall|a: int, b: int| 0 <= a < b < q.missing_spec(vp, zoom).len() ==>
            (#[trigger] q.missing_spec(vp, zoom)[a]).disjoint(#[trigger] q.missing_spec(vp, zoom)[b]),
        forall|x: int, y: int| #[trigger] vp.contains_spec(x, y) && q.in_page(x, y) ==>
            (exists|e: int| 0 <= e < q.missing_spec(vp, zoom).len() && (#[trigger] q.missing_spec(vp, zoom)[e]).contains_spec(x, y))
            || q.has_valid(q.x + ((x - q.x) / (q.tile_size as int)) * q.tile_size, q.y + ((y - q.y) / (q.tile_size as int)) * q.tile_size, zoom),
{
    let n = q.cell_count(vp) as nat;
    let (i0, i1) = q.cols(vp);
    let (j0, j1) = q.rows(vp);
    lemma_span_facts(vp.origin.x as int, vp.size.width as int, q.x as int, q.width as int, q.tile_size as int);
    lemma_span_facts(vp.origin.y as int, vp.size.height as int, q.y as int, q.height as int, q.tile_size as int);
    assert(n == q.cell_count(vp)) by (nonlinear_arith)
        requires
            q.cell_count(vp) == (i1 - i0) * (j1 - j0),
            i0 <= i1,
            j0 <= j1,
            n == q.cell_count(vp) as nat,
    ;
    q.lemma_missing_disjoint(vp, zoom, n);
    let ts = q.tile_size as int;
    assert forall|x: int, y: int| #[trigger] vp.contains_spec(x, y) && q.in_page(x, y) implies
        (exists|e: int| 0 <= e < q.missing_spec(vp, zoom).len() && (#[trigger] q.missing_spec(vp, zoom)[e]).contains_spec(x, y))
        || q.has_valid(q.x + ((x - q.x) / ts) * q.tile_size, q.y + ((y - q.y) / ts) * q.tile_size, zoom) by {
        lemma_point_cell(x, vp.origin.x as int, vp.size.width as int, q.x as int, q.width as int, ts);
        lemma_point_cell(y, vp.origin.y as int, vp.size.height as int, q.y as int, q.height as int, ts);
        let c = (x - q.x) / ts;
        let r = (y - q.y) / ts;
        let ni = i1 - i0;
        let nj = j1 - j0;
        let k = (r - j0) * ni + (c - i0);
        assert(0 <= k < ni * nj) by (nonlinear_arith)
            requires
                k == (r - j0) * ni + (c - i0),
                0 <= c - i0 < ni,
                0 <= r - j0 < nj,
        ;
        lemma_fundamental_div_mod_converse(k, ni, r - j0, c - i0);
        assert(q.cell_at(vp, k) == (c, r));
        if q.cell_missing(vp, k, zoom) {
            q.lemma_missing_has(vp, zoom, n, k);
            let e = choose|e: int| 0 <= e < q.missing_upto(vp, zoom, n).len()
                && #[trigger] q.missing_upto(vp, zoom, n)[e] == q.cell_rect(q.cell_at(vp, k).0, q.cell_at(vp, k).1);
            q.lemma_cell_rect(vp, c, r);
            assert(q.missing_spec(vp, zoom)[e].contains_spec(x, y));
        }
    }
}

} // verus!
