use vstd::prelude::*;
use crate::geometry::{Point, Rect, Size};
use crate::quadtree::{Quadtree, Slot, Tile};
use crate::viewport::{Transform, Viewport, ZOOM_ONE};

verus! {

/// How long after the last pinch the compositor waits before asking for
/// tiles at the new zoom, in milliseconds.
pub const ZOOM_SETTLE_MS: u64 = 300;

/// Loading progress of the current page, shown by the window.
#[derive(Clone, Copy, Debug, PartialEq, Eq, Structural)]
pub enum ReadyState {
    Blank,
    Loading,
    PerformingLayout,
    FinishedLoading,
}

/// Whether the renderer is busy, shown by the window.
#[derive(Clone, Copy, Debug, PartialEq, Eq, Structural)]
pub enum RenderState {
    IdleRenderState,
    RenderingRenderState,
}

/// Direction of a history navigation.
#[derive(Clone, Copy, Debug, PartialEq, Eq, Structural)]
pub enum NavigationDirection {
    Forward,
    Back,
}

/// A mouse event from the window, at a point in window pixels.
#[derive(Clone, Copy, Debug, PartialEq, Eq, Structural)]
pub enum WindowMouseEvent {
    Click(u32, i32, i32),
    Down(u32, i32, i32),
    Up(u32, i32, i32),
}

/// A DOM event forwarded to script; points are page coordinates.
#[derive(Clone, Copy, Debug, PartialEq, Eq, Structural)]
pub enum ScriptEvent {
    Resize(u32, u32),
    Click(u32, Point),
    MouseDown(u32, Point),
    MouseUp(u32, Point),
}

/// A message routed to the script task through layout.
#[derive(Debug)]
pub enum ScriptMsg {
    Load(String),
    Navigate(NavigationDirection),
    SendEvent(ScriptEvent),
}

/// Messages to the compositor. Reply channels are kept by the caller, who
/// receives the matching reply in the returned actions.
#[derive(Debug)]
pub enum Msg {
    /// Shut down.
    Exit,
    /// Ask for the window size.
    GetSize,
    /// Ask for the GPU context.
    GetGLContext,
    /// A new layer of the given page width and height, tiled by the given size.
    NewLayer(u32, u32, u32),
    /// The current layer has a new page width and height.
    ResizeLayer(u32, u32),
    /// The current layer is gone.
    DeleteLayer,
    /// Rendered tiles for a pipeline, with the page width and height.
    Paint(u64, Vec<Tile>, u32, u32),
    ChangeReadyState(ReadyState),
    ChangeRenderState(RenderState),
    /// Channels to the layout and render tasks of the given pipeline are set.
    SetLayoutRenderChans(u64),
}

/// What the compositor asks its surroundings to do.
#[derive(Debug)]
pub enum Action {
    ReplySize(Size),
    ReplyGLContext,
    SetReadyState(ReadyState),
    SetRenderState(RenderState),
    /// Hook the window's input callbacks up to the layout channel.
    InstallCallbacks,
    /// Confirm to the constellation that the pipeline's channels are set.
    Ack(u64),
    /// Ask the renderer for these page rectangles at this zoom.
    ReRender(Vec<Rect>, u32),
    /// Tiles are missing but no render channel is set.
    NoRenderChan,
    Script(ScriptMsg),
}

/// A textured sublayer of the scene root, bound to a tile's surface.
#[derive(Clone, Copy, Debug, PartialEq, Eq, Structural)]
pub struct SubLayer {
    pub surface: u64,
    pub size: Size,
    pub transform: Transform,
}

/// The map of a tile's unit square onto the page at world zoom `zoom`:
/// `translate(origin * Z) . scale(W * Z / r, H * Z / r)`, where `origin` is
/// the tile's page origin, `W x H` its pixel size and `r` its resolution.
pub open spec fn tile_transform_spec(t: Tile, zoom: u32) -> Transform {
    let z = zoom as int;
    let r = t.resolution as int;
    Transform {
        sx: (t.screen_pos.size.width * z * ZOOM_ONE) as i128,
        sy: (t.screen_pos.size.height * z * ZOOM_ONE) as i128,
        tx: (t.rect.origin.x * z * r) as i128,
        ty: (t.rect.origin.y * z * r) as i128,
        den: (ZOOM_ONE * r) as i128,
    }
}

/// The slot a paint at world zoom `zoom` records for buffer `b`: anchored at
/// its screen origin, with the resolution set to `zoom`.
pub open spec fn painted(b: Tile, zoom: u32) -> Slot {
    Slot {
        x: b.screen_pos.origin.x,
        y: b.screen_pos.origin.y,
        tile: Tile { screen_pos: b.screen_pos, rect: b.rect, resolution: zoom, surface: b.surface },
    }
}

/// No buffer after the `k`-th and before the `n`-th has the same origin.
pub open spec fn last_before(bufs: Seq<Tile>, k: int, n: int) -> bool {
    forall|k2: int| k < k2 < n ==> (#[trigger] bufs[k2]).screen_pos.origin != bufs[k].screen_pos.origin
}

pub open spec fn sublayer_for(t: Tile, zoom: u32) -> SubLayer {
    SubLayer { surface: t.surface, size: t.screen_pos.size, transform: tile_transform_spec(t, zoom) }
}

/// The sublayer's transform for tile `t` at world zoom `zoom`.
pub fn tile_transform(t: &Tile, zoom: u32) -> (r: Transform)
    requires
        t.wf(),
    ensures
        r == tile_transform_spec(*t, zoom),
{
    let z = zoom as i128;
    let res = t.resolution as i128;
    let (w, h) = (t.screen_pos.size.width as i128, t.screen_pos.size.height as i128);
    let (x, y) = (t.rect.origin.x as i128, t.rect.origin.y as i128);
    assert(0 <= w * z * 1000 < 0x1_0000_0000_0000_0000_0000_0000_0000 && 0 <= h * z * 1000 < 0x1_0000_0000_0000_0000_0000_0000_0000) by (nonlinear_arith)
        requires
            0 <= w < 0x4000_0000_0000_0000,
            0 <= h < 0x4000_0000_0000_0000,
            0 <= z <= u32::MAX,
    ;
    assert(-0x4000_0000_0000_0000_0000_0000_0000_0000 < x * z * res < 0x4000_0000_0000_0000_0000_0000_0000_0000
        && -0x4000_0000_0000_0000_0000_0000_0000_0000 < y * z * res < 0x4000_0000_0000_0000_0000_0000_0000_0000) by (nonlinear_arith)
        requires
            -0x4000_0000_0000_0000 < x < 0x4000_0000_0000_0000,
            -0x4000_0000_0000_0000 < y < 0x4000_0000_0000_0000,
            0 <= z <= u32::MAX,
            0 <= res <= u32::MAX,
    ;
    assert(-0x4000_0000_0000_0000_0000_0000 < x * z < 0x4000_0000_0000_0000_0000_0000
        && -0x4000_0000_0000_0000_0000_0000 < y * z < 0x4000_0000_0000_0000_0000_0000
        && 0 <= w * z < 0x4000_0000_0000_0000_0000_0000 && 0 <= h * z < 0x4000_0000_0000_0000_0000_0000) by (nonlinear_arith)
        requires
            -0x4000_0000_0000_0000 < x < 0x4000_0000_0000_0000,
            -0x4000_0000_0000_0000 < y < 0x4000_0000_0000_0000,
            0 <= w < 0x4000_0000_0000_0000,
            0 <= h < 0x4000_0000_0000_0000,
            0 <= z <= u32::MAX,
    ;
    Transform { sx: w * z * 1000, sy: h * z * 1000, tx: x * z * res, ty: y * z * res, den: 1000 * res }
}

/// Rebinds the scene's sublayers to `tiles` in order: the first
/// `min(|scene|, |tiles|)` sublayers are rebound, sublayers for the remaining
/// tiles are appended, and leftover sublayers are removed.
pub fn reconcile(scene: &mut Vec<SubLayer>, tiles: &Vec<Tile>, zoom: u32)
    requires
        forall|i: int| 0 <= i < tiles@.len() ==> (#[trigger] tiles@[i]).wf(),
    ensures
        final(scene)@.len() == tiles@.len(),
        forall|i: int| 0 <= i < tiles@.len() ==> #[trigger] final(scene)@[i] == sublayer_for(tiles@[i], zoom),
{
    let mut i: usize = 0;
    while i < tiles.len()
        invariant
            forall|k: int| 0 <= k < tiles@.len() ==> (#[trigger] tiles@[k]).wf(),
            0 <= i <= tiles@.len(),
            i <= scene@.len() || scene@.len() == i,
            forall|k: int| 0 <= k < i ==> #[trigger] scene@[k] == sublayer_for(tiles@[k], zoom),
        decreases tiles@.len() - i,
    {
        let t = &tiles[i];
        let layer = SubLayer { surface: t.surface, size: t.screen_pos.size, transform: tile_transform(t, zoom) };
        if i < scene.len() {
            scene.set(i, layer);
        } else {
            scene.push(layer);
        }
        i = i + 1;
    }
    scene.truncate(i);
}


/// The compositor's whole state, owned by its main loop.
///
/// Tiles are anchored in the index at their screen origin, which is their
/// placement at the resolution they were rendered at, and a tile request
/// queries the index with the window's rectangle at the world offset, which
/// is also in world-zoom pixels. The index's extent is the page size that the
/// renderer reported, as given.
pub struct Compositor {
    pub view: Viewport,
    pub quadtree: Option<Quadtree>,
    pub scene: Vec<SubLayer>,
    /// Transform of the scene root.
    pub root: Transform,
    pub pipeline_id: Option<u64>,
    pub has_render_chan: bool,
    pub has_layout_chan: bool,
    pub done: bool,
    pub recomposite: bool,
    /// A pinch happened and no tiles were asked for since.
    pub zoom_action: bool,
    /// Time of the last pinch, in milliseconds.
    pub zoom_time: u64,
}

impl Compositor {
    pub open spec fn wf(self) -> bool {
        &&& self.view.wf()
        &&& self.quadtree matches Some(q) ==> q.wf() && forall|i: int| 0 <= i < q.slots@.len() ==>
                (#[trigger] q.slots@[i]).tile.screen_pos.origin == (Point { x: q.slots@[i].x, y: q.slots@[i].y })
    }

    pub open spec fn with_recomposite(self, b: bool) -> Compositor {
        Compositor { recomposite: b, ..self }
    }


    pub open spec fn with_done(self) -> Compositor {
        Compositor { done: true, ..self }
    }

    pub open spec fn with_page(self, w: u32, h: u32) -> Compositor {
        Compositor { view: Viewport { page: Size { width: w as i64, height: h as i64 }, ..self.view }, ..self }
    }

    pub open spec fn with_layer(self, w: u32, h: u32, q: Quadtree) -> Compositor {
        Compositor { quadtree: Some(q), ..self.with_page(w, h) }
    }

    pub open spec fn with_chans(self, pid: u64) -> Compositor {
        Compositor { has_layout_chan: true, has_render_chan: true, pipeline_id: Some(pid), ..self }
    }

    pub open spec fn with_window(self, w: u32, h: u32) -> Compositor {
        Compositor { view: Viewport { window: Size { width: w as i64, height: h as i64 }, ..self.view }, ..self }
    }

    /// This state with viewport `v`, the root transform that goes with it,
    /// and the scene marked for recompositing.
    pub open spec fn with_view(self, v: Viewport) -> Compositor {
        Compositor { view: v, root: v.root_spec(), recomposite: true, ..self }
    }

    /// Whether a pinch has settled at time `now`.
    pub open spec fn settled(self, now: u64) -> bool {
        self.zoom_action && now > self.zoom_time + ZOOM_SETTLE_MS
    }

    /// The page point under window point `(x, y)`.
    pub open spec fn world_point(self, x: i32, y: i32) -> Point {
        Point { x: (x + self.view.offset.x) as i64, y: (y + self.view.offset.y) as i64 }
    }

    /// The visible page rectangle at world zoom.
    pub open spec fn view_rect(self) -> Rect {
        Rect { origin: self.view.offset, size: self.view.window }
    }

    /// The rectangles a tile request would ask for now.
    pub open spec fn missing(self) -> Seq<Rect> {
        self.quadtree->Some_0.missing_spec(self.view_rect(), self.view.world_zoom)
    }

    pub open spec fn redisplay(self) -> bool {
        self.quadtree->Some_0.redisplay_spec(self.view_rect(), self.view.world_zoom)
    }

    /// The actions of a tile request made in this state.
    pub open spec fn request_actions(self, r: Seq<Action>) -> bool {
        if self.missing().len() > 0 {
            if self.has_render_chan {
                r.len() == 1 && match r[0] {
                    Action::ReRender(v, z) => v@ == self.missing() && z == self.view.world_zoom,
                    _ => false,
                }
            } else {
                r.len() == 1 && r[0] is NoRenderChan
            }
        } else {
            r.len() == 0
        }
    }


    /// Whether `msg` may be handled in this state: a tile size is positive,
    /// and a paint for the current pipeline comes after a layer exists and
    /// carries tiles of bounded geometry.
    pub open spec fn msg_ok(self, msg: Msg) -> bool {
        match msg {
            Msg::NewLayer(_, _, ts) => ts > 0,
            Msg::Paint(id, bufs, _, _) => self.pipeline_id == Some(id) ==> self.quadtree is Some
                && forall|k: int| 0 <= k < bufs@.len() ==> (#[trigger] bufs@[k]).screen_pos.wf() && bufs@[k].rect.wf(),
            _ => true,
        }
    }

    /// Slot `s` at position `j` after the first `n` buffers of a paint were
    /// cached: it holds one of those buffers, or it is the slot that was at
    /// `j` before the paint and none of those buffers took its key.
    pub open spec fn from_paint_or_kept(oq: Quadtree, s: Slot, j: int, bufs: Seq<Tile>, n: int, z: u32) -> bool {
        (exists|k: int| 0 <= k < n && oq.in_page((#[trigger] bufs[k]).screen_pos.origin.x as int, bufs[k].screen_pos.origin.y as int)
            && s == painted(bufs[k], z))
        || (j < oq.slots@.len() && s == oq.slots@[j]
            && forall|k: int| 0 <= k < n && oq.in_page((#[trigger] bufs[k]).screen_pos.origin.x as int, bufs[k].screen_pos.origin.y as int)
                ==> painted(bufs[k], z).key() != oq.slots@[j].key())
    }

    /// `new` is `old` after a paint of `bufs` on a page of `w x h`.
    pub open spec fn paint_post(old: Compositor, new: Compositor, bufs: Seq<Tile>, w: u32, h: u32) -> bool {
        let q = new.quadtree->Some_0;
        let oq = old.quadtree->Some_0;
        let z = old.view.world_zoom;
        &&& new.view == (Viewport { page: Size { width: w as i64, height: h as i64 }, local_zoom: ZOOM_ONE, ..old.view })
        &&& new.quadtree is Some
        &&& q.x == oq.x && q.y == oq.y && q.width == oq.width && q.height == oq.height && q.tile_size == oq.tile_size
        &&& oq.slots@.len() <= q.slots@.len() <= oq.slots@.len() + bufs.len()
        &&& forall|j: int| 0 <= j < oq.slots@.len() ==> (#[trigger] q.slots@[j]).key() == oq.slots@[j].key()
        &&& forall|k: int| 0 <= k < bufs.len() && oq.in_page((#[trigger] bufs[k]).screen_pos.origin.x as int, bufs[k].screen_pos.origin.y as int)
                ==> exists|j: int| 0 <= j < q.tiles().len() && (#[trigger] q.tiles()[j]).screen_pos.origin == bufs[k].screen_pos.origin
                    && q.tiles()[j].resolution == z
        &&& forall|k: int| 0 <= k < bufs.len() && oq.in_page((#[trigger] bufs[k]).screen_pos.origin.x as int, bufs[k].screen_pos.origin.y as int)
                && last_before(bufs, k, bufs.len() as int) ==> q.slots@.contains(painted(bufs[k], z))
        &&& forall|j: int| 0 <= j < q.slots@.len() ==> Compositor::from_paint_or_kept(oq, q.slots@[j], j, bufs, bufs.len() as int, z)
        &&& new.scene@.len() == q.tiles().len()
        &&& forall|i: int| 0 <= i < q.tiles().len() ==> #[trigger] new.scene@[i] == sublayer_for(q.tiles()[i], z)
        &&& new.root == new.view.root_spec()
        &&& new.recomposite
        &&& new.pipeline_id == old.pipeline_id && new.has_render_chan == old.has_render_chan
        &&& new.has_layout_chan == old.has_layout_chan && new.done == old.done
        &&& new.zoom_action == old.zoom_action && new.zoom_time == old.zoom_time
    }

    /// Whether `msg` may be handled in this state.
    pub fn accepts(&self, msg: &Msg) -> (r: bool)
        ensures
            r == self.msg_ok(*msg),
    {
        match msg {
            Msg::NewLayer(_, _, ts) => *ts > 0,
            Msg::Paint(id, bufs, _, _) => {
                let current = match self.pipeline_id {
                    Some(p) => p == *id,
                    None => false,
                };
                if !current {
                    return true;
                }
                assert(self.pipeline_id == Some(*id));
                if self.quadtree.is_none() {
                    return false;
                }
                let mut k: usize = 0;
                while k < bufs.len()
                    invariant
                        self.msg_ok(*msg) == forall|j: int| 0 <= j < bufs@.len() ==> (#[trigger] bufs@[j]).screen_pos.wf() && bufs@[j].rect.wf(),
                        self.pipeline_id == Some(*id),
                        self.quadtree is Some,
                        0 <= k <= bufs@.len(),
                        forall|j: int| 0 <= j < k ==> (#[trigger] bufs@[j]).screen_pos.wf() && bufs@[j].rect.wf(),
                    decreases bufs@.len() - k,
                {
                    let b = &bufs[k];
                    if !b.screen_pos.is_wf() || !b.rect.is_wf() {
                        assert(!(bufs@[k as int].screen_pos.wf() && bufs@[k as int].rect.wf()));
                        return false;
                    }
                    k = k + 1;
                }
                true
            },
            _ => true,
        }
    }


    /// Records a paint of `bufs` for pipeline `id` on a page of `w x h`.
    /// A paint for another pipeline is ignored. Otherwise each tile is
    /// cached at its screen origin at the world zoom, the scene's sublayers
    /// are rebound to the cached tiles, the local zoom is reset to 1.0 and the
    /// scene is marked for recompositing.
    pub fn paint(&mut self, id: u64, bufs: Vec<Tile>, w: u32, h: u32)
        requires
            old(self).wf(),
            old(self).pipeline_id == Some(id) ==> old(self).quadtree is Some
                && forall|k: int| 0 <= k < bufs@.len() ==> (#[trigger] bufs@[k]).screen_pos.wf() && bufs@[k].rect.wf(),
        ensures
            final(self).wf(),
            old(self).pipeline_id != Some(id) ==> *final(self) == *old(self),
            old(self).pipeline_id == Some(id) ==> Compositor::paint_post(*old(self), *final(self), bufs@, w, h),
    {
        let current = match self.pipeline_id {
            Some(p) => p == id,
            None => false,
        };
        if !current {
            return;
        }
        assert(self.pipeline_id == Some(id));
        assert(forall|k: int| 0 <= k < bufs@.len() ==> (#[trigger] bufs@[k]).screen_pos.wf() && bufs@[k].rect.wf());
        let z = self.view.world_zoom;
        let mut q = match self.quadtree.take() {
            Some(q) => q,
            None => return,
        };
        let ghost oq = q;
        self.view.page = Size { width: w as i64, height: h as i64 };
        let mut i: usize = 0;
        while i < bufs.len()
            invariant
                forall|k: int| 0 <= k < bufs@.len() ==> (#[trigger] bufs@[k]).screen_pos.wf() && bufs@[k].rect.wf(),
                z >= ZOOM_ONE,
                0 <= i <= bufs@.len(),
                q.wf(),
                forall|j: int| 0 <= j < q.slots@.len() ==>
                    (#[trigger] q.slots@[j]).tile.screen_pos.origin == (Point { x: q.slots@[j].x, y: q.slots@[j].y }),
                q.x == oq.x && q.y == oq.y && q.width == oq.width && q.height == oq.height && q.tile_size == oq.tile_size,
                oq.slots@.len() <= q.slots@.len() <= oq.slots@.len() + i,
                forall|j: int| 0 <= j < oq.slots@.len() ==> (#[trigger] q.slots@[j]).key() == oq.slots@[j].key(),
                forall|k: int| 0 <= k < i && oq.in_page((#[trigger] bufs@[k]).screen_pos.origin.x as int, bufs@[k].screen_pos.origin.y as int)
                    ==> exists|j: int| 0 <= j < q.slots@.len() && (#[trigger] q.slots@[j]).key()
                        == (bufs@[k].screen_pos.origin.x as int, bufs@[k].screen_pos.origin.y as int, z),
                forall|k: int| 0 <= k < i && oq.in_page((#[trigger] bufs@[k]).screen_pos.origin.x as int, bufs@[k].screen_pos.origin.y as int)
                    && last_before(bufs@, k, i as int) ==> q.slots@.contains(painted(bufs@[k], z)),
                forall|j: int| 0 <= j < q.slots@.len() ==> Compositor::from_paint_or_kept(oq, q.slots@[j], j, bufs@, i as int, z),
            decreases bufs@.len() - i,
        {
            let b = bufs[i];
            let ghost before = q;
            let inserted = q.add_tile(b.screen_pos.origin.x, b.screen_pos.origin.y, z, b);
            proof {
                assert forall|k: int| 0 <= k <= i && oq.in_page((#[trigger] bufs@[k]).screen_pos.origin.x as int, bufs@[k].screen_pos.origin.y as int)
                    implies exists|j: int| 0 <= j < q.slots@.len() && (#[trigger] q.slots@[j]).key()
                        == (bufs@[k].screen_pos.origin.x as int, bufs@[k].screen_pos.origin.y as int, z) by {
                    if k < i {
                        let j0 = choose|j: int| 0 <= j < before.slots@.len() && (#[trigger] before.slots@[j]).key()
                            == (bufs@[k].screen_pos.origin.x as int, bufs@[k].screen_pos.origin.y as int, z);
                        assert(q.slots@[j0].key() == before.slots@[j0].key());
                    } else {
                        let j1 = choose|j: int| 0 <= j < q.slots@.len() && (#[trigger] q.slots@[j]) == (Slot {
                            x: b.screen_pos.origin.x,
                            y: b.screen_pos.origin.y,
                            tile: Tile { screen_pos: b.screen_pos, rect: b.rect, resolution: z, surface: b.surface },
                        });
                        assert(q.slots@[j1].key() == (bufs@[k].screen_pos.origin.x as int, bufs@[k].screen_pos.origin.y as int, z));
                    }
                }
                assert forall|j: int| 0 <= j < oq.slots@.len() implies (#[trigger] q.slots@[j]).key() == oq.slots@[j].key() by {
                    assert(q.slots@[j].key() == before.slots@[j].key());
                }
                let s = painted(bufs@[i as int], z);
                assert(b == bufs@[i as int]);
                assert forall|k: int| 0 <= k < i + 1 && oq.in_page((#[trigger] bufs@[k]).screen_pos.origin.x as int, bufs@[k].screen_pos.origin.y as int)
                    && last_before(bufs@, k, i + 1) implies q.slots@.contains(painted(bufs@[k], z)) by {
                    if k < i {
                        assert(last_before(bufs@, k, i as int));
                        assert(bufs@[i as int].screen_pos.origin != bufs@[k].screen_pos.origin);
                        assert(before.slots@.contains(painted(bufs@[k], z)));
                        let j0 = choose|j: int| 0 <= j < before.slots@.len() && before.slots@[j] == painted(bufs@[k], z);
                        assert(q.slots@[j0].key() == before.slots@[j0].key());
                        if q.slots@[j0] == s {
                            assert(false);
                        }
                        assert(q.slots@[j0] == painted(bufs@[k], z));
                    } else {
                        let j1 = choose|j: int| 0 <= j < q.slots@.len() && (#[trigger] q.slots@[j]) == s;
                        assert(q.slots@[j1] == painted(bufs@[k], z));
                    }
                }
                assert forall|j: int| 0 <= j < q.slots@.len() implies Compositor::from_paint_or_kept(oq, q.slots@[j], j, bufs@, i + 1, z) by {
                    if inserted && q.slots@[j] == s {
                        assert(oq.in_page(bufs@[i as int].screen_pos.origin.x as int, bufs@[i as int].screen_pos.origin.y as int));
                    } else {
                        assert(j < before.slots@.len() && q.slots@[j] == before.slots@[j]);
                        assert(Compositor::from_paint_or_kept(oq, before.slots@[j], j, bufs@, i as int, z));
                        if inserted {
                            let j1 = choose|j2: int| 0 <= j2 < q.slots@.len() && (#[trigger] q.slots@[j2]) == s;
                            if j < oq.slots@.len() && before.slots@[j] == oq.slots@[j] && s.key() == oq.slots@[j].key() {
                                assert(q.slots@[j].key() == q.slots@[j1].key());
                                assert(j != j1);
                                if j < j1 {
                                    assert(q.slots@[j].key() != q.slots@[j1].key());
                                } else {
                                    assert(q.slots@[j1].key() != q.slots@[j].key());
                                }
                            }
                        }
                    }
                }
            }
            i = i + 1;
        }
        let tiles = q.get_all_tiles();
        reconcile(&mut self.scene, &tiles, z);
        proof {
            assert forall|k: int| 0 <= k < bufs@.len() && oq.in_page((#[trigger] bufs@[k]).screen_pos.origin.x as int, bufs@[k].screen_pos.origin.y as int)
                implies exists|j: int| 0 <= j < q.tiles().len() && (#[trigger] q.tiles()[j]).screen_pos.origin == bufs@[k].screen_pos.origin
                    && q.tiles()[j].resolution == z by {
                let j0 = choose|j: int| 0 <= j < q.slots@.len() && (#[trigger] q.slots@[j]).key()
                    == (bufs@[k].screen_pos.origin.x as int, bufs@[k].screen_pos.origin.y as int, z);
                assert(q.tiles()[j0] == q.slots@[j0].tile);
            }
        }
        self.quadtree = Some(q);
        self.view.local_zoom = ZOOM_ONE;
        self.root = self.view.root_transform();
        self.recomposite = true;
    }


    /// Handles one inbound message and returns what to do in response.
    pub fn handle_msg(&mut self, msg: Msg) -> (r: Vec<Action>)
        requires
            old(self).wf(),
            old(self).msg_ok(msg),
        ensures
            final(self).wf(),
            match msg {
                Msg::Exit => *final(self) == old(self).with_done() && r@.len() == 0,
                Msg::GetSize => *final(self) == *old(self) && r@ == seq![Action::ReplySize(old(self).view.window)],
                Msg::GetGLContext => *final(self) == *old(self) && r@ == seq![Action::ReplyGLContext],
                Msg::ChangeReadyState(st) => *final(self) == *old(self) && r@ == seq![Action::SetReadyState(st)],
                Msg::ChangeRenderState(st) => *final(self) == *old(self) && r@ == seq![Action::SetRenderState(st)],
                Msg::SetLayoutRenderChans(pid) => *final(self) == old(self).with_chans(pid)
                    && r@ == seq![Action::InstallCallbacks, Action::Ack(pid)],
                Msg::NewLayer(w, h, ts) => {
                    &&& final(self).quadtree is Some
                    &&& final(self).quadtree->Some_0.x == 0 && final(self).quadtree->Some_0.y == 0
                    &&& final(self).quadtree->Some_0.width == w && final(self).quadtree->Some_0.height == h
                    &&& final(self).quadtree->Some_0.tile_size == ts
                    &&& final(self).quadtree->Some_0.slots@.len() == 0
                    &&& *final(self) == old(self).with_layer(w, h, final(self).quadtree->Some_0).with_recomposite(final(self).recomposite)
                    &&& final(self).recomposite == (old(self).recomposite || (final(self).missing().len() == 0 && final(self).redisplay()))
                    &&& final(self).request_actions(r@)
                },
                Msg::ResizeLayer(w, h) => r@.len() == 0 && match old(self).quadtree {
                    None => *final(self) == old(self).with_page(w, h),
                    Some(oq) => {
                        let q = final(self).quadtree->Some_0;
                        &&& final(self).quadtree is Some
                        &&& *final(self) == old(self).with_layer(w, h, q)
                        &&& q.x == oq.x && q.y == oq.y && q.tile_size == oq.tile_size
                        &&& q.width == w && q.height == h
                        &&& q.slots@ == oq.slots@.filter(|s: Slot| q.in_page(s.x as int, s.y as int))
                    },
                },
                Msg::DeleteLayer => *final(self) == *old(self) && r@.len() == 0,
                Msg::Paint(id, bufs, w, h) => r@.len() == 0
                    && (old(self).pipeline_id != Some(id) ==> *final(self) == *old(self))
                    && (old(self).pipeline_id == Some(id) ==> Compositor::paint_post(*old(self), *final(self), bufs@, w, h)),
            },
    {
        match msg {
            Msg::Exit => {
                self.done = true;
                Vec::new()
            },
            Msg::GetSize => vec![Action::ReplySize(self.view.window)],
            Msg::GetGLContext => vec![Action::ReplyGLContext],
            Msg::ChangeReadyState(st) => vec![Action::SetReadyState(st)],
            Msg::ChangeRenderState(st) => vec![Action::SetRenderState(st)],
            Msg::SetLayoutRenderChans(pid) => {
                self.has_layout_chan = true;
                self.has_render_chan = true;
                self.pipeline_id = Some(pid);
                vec![Action::InstallCallbacks, Action::Ack(pid)]
            },
            Msg::NewLayer(w, h, ts) => {
                self.view.page = Size { width: w as i64, height: h as i64 };
                self.quadtree = Some(Quadtree::new(0, 0, w, h, ts));
                self.ask_for_tiles()
            },
            Msg::ResizeLayer(w, h) => {
                self.view.page = Size { width: w as i64, height: h as i64 };
                match self.quadtree.take() {
                    Some(mut q) => {
                        let ghost oq = q;
                        q.resize(w, h);
                        proof {
                            assert forall|j: int| 0 <= j < q.slots@.len() implies
                                (#[trigger] q.slots@[j]).tile.screen_pos.origin == (Point { x: q.slots@[j].x, y: q.slots@[j].y }) by {
                                assert(oq.slots@.contains(q.slots@[j]));
                                let k = choose|k: int| 0 <= k < oq.slots@.len() && oq.slots@[k] == q.slots@[j];
                                assert(oq.slots@[k].tile.screen_pos.origin == (Point { x: oq.slots@[k].x, y: oq.slots@[k].y }));
                            }
                        }
                        self.quadtree = Some(q);
                    },
                    None => {},
                }
                Vec::new()
            },
            Msg::DeleteLayer => Vec::new(),
            Msg::Paint(id, bufs, w, h) => {
                self.paint(id, bufs, w, h);
                Vec::new()
            },
        }
    }

    /// The window was resized to `w x h`: forwards a resize event to script
    /// when the size changed and a layout channel is set.
    pub fn on_resize(&mut self, w: u32, h: u32) -> (r: Option<ScriptMsg>)
        requires
            old(self).wf(),
        ensures
            final(self).wf(),
            (!old(self).has_layout_chan || old(self).view.window == (Size { width: w as i64, height: h as i64 }))
                ==> *final(self) == *old(self) && r is None,
            (old(self).has_layout_chan && old(self).view.window != (Size { width: w as i64, height: h as i64 }))
                ==> *final(self) == old(self).with_window(w, h)
                    && (r matches Some(ScriptMsg::SendEvent(ScriptEvent::Resize(a, b))) && a == w && b == h),
    {
        let size = Size { width: w as i64, height: h as i64 };
        if !self.has_layout_chan || (self.view.window.width == size.width && self.view.window.height == size.height) {
            return None;
        }
        self.view.window = size;
        Some(ScriptMsg::SendEvent(ScriptEvent::Resize(w, h)))
    }

    /// The user navigated through history.
    pub fn on_navigate(&self, dir: NavigationDirection) -> (r: Option<ScriptMsg>)
        ensures
            self.has_layout_chan ==> (r matches Some(ScriptMsg::Navigate(d)) && d == dir),
            !self.has_layout_chan ==> r is None,
    {
        if self.has_layout_chan {
            Some(ScriptMsg::Navigate(dir))
        } else {
            None
        }
    }

    /// The user entered a URL.
    pub fn on_load_url(&self, url: String) -> (r: Option<ScriptMsg>)
        ensures
            self.has_layout_chan ==> (r matches Some(ScriptMsg::Load(s)) && s@ == url@),
            !self.has_layout_chan ==> r is None,
    {
        if self.has_layout_chan {
            Some(ScriptMsg::Load(url))
        } else {
            None
        }
    }

    /// A mouse event at a window point: forwarded to script at the page
    /// point under it. A button release also asks for tiles first.
    pub fn on_mouse(&mut self, ev: WindowMouseEvent) -> (r: Vec<Action>)
        requires
            old(self).wf(),
            old(self).has_layout_chan && ev is Up ==> old(self).quadtree is Some,
        ensures
            final(self).wf(),
            !old(self).has_layout_chan ==> *final(self) == *old(self) && r@.len() == 0,
            old(self).has_layout_chan ==> match ev {
                WindowMouseEvent::Click(b, x, y) => *final(self) == *old(self)
                    && r@ == seq![Action::Script(ScriptMsg::SendEvent(ScriptEvent::Click(b, old(self).world_point(x, y))))],
                WindowMouseEvent::Down(b, x, y) => *final(self) == *old(self)
                    && r@ == seq![Action::Script(ScriptMsg::SendEvent(ScriptEvent::MouseDown(b, old(self).world_point(x, y))))],
                WindowMouseEvent::Up(b, x, y) => {
                    &&& *final(self) == old(self).with_recomposite(
                        old(self).recomposite || (old(self).missing().len() == 0 && old(self).redisplay()))
                    &&& r@.len() >= 1
                    &&& old(self).request_actions(r@.drop_last())
                    &&& r@.last() == Action::Script(ScriptMsg::SendEvent(ScriptEvent::MouseUp(b, old(self).world_point(x, y))))
                },
            },
    {
        if !self.has_layout_chan {
            return Vec::new();
        }
        let (ox, oy) = (self.view.offset.x, self.view.offset.y);
        match ev {
            WindowMouseEvent::Click(b, x, y) => {
                let p = Point { x: x as i64 + ox, y: y as i64 + oy };
                vec![Action::Script(ScriptMsg::SendEvent(ScriptEvent::Click(b, p)))]
            },
            WindowMouseEvent::Down(b, x, y) => {
                let p = Point { x: x as i64 + ox, y: y as i64 + oy };
                vec![Action::Script(ScriptMsg::SendEvent(ScriptEvent::MouseDown(b, p)))]
            },
            WindowMouseEvent::Up(b, x, y) => {
                let mut r = self.ask_for_tiles();
                let ghost req = r@;
                let p = Point { x: x as i64 + ox, y: y as i64 + oy };
                r.push(Action::Script(ScriptMsg::SendEvent(ScriptEvent::MouseUp(b, p))));
                assert(r@.drop_last() == req);
                r
            },
        }
    }

    /// The user scrolled by `(dx, dy)`: moves the page, clamped, and marks
    /// the scene for recompositing. No tiles are asked for.
    pub fn on_scroll(&mut self, dx: i32, dy: i32)
        requires
            old(self).wf(),
        ensures
            final(self).wf(),
            *final(self) == old(self).with_view(old(self).view.scrolled(dx as int, dy as int)),
    {
        self.view.scroll(dx, dy);
        self.root = self.view.root_transform();
        self.recomposite = true;
    }

    /// The user pinched by `mag` (in thousandths) at time `now`
    /// (milliseconds): zooms about the window's centre and starts the wait
    /// before tiles at the new zoom are asked for.
    pub fn on_zoom(&mut self, mag: u32, now: u64)
        requires
            old(self).wf(),
        ensures
            final(self).wf(),
            *final(self) == (Compositor { zoom_action: true, zoom_time: now, ..old(self).with_view(old(self).view.pinched(mag as int)) }),
    {
        self.zoom_action = true;
        self.zoom_time = now;
        self.view.zoom(mag);
        self.root = self.view.root_transform();
        self.recomposite = true;
    }

    /// A loop tick at time `now` (milliseconds): once a pinch has settled,
    /// asks for tiles at the new zoom.
    pub fn tick(&mut self, now: u64) -> (r: Vec<Action>)
        requires
            old(self).wf(),
            old(self).settled(now) ==> old(self).quadtree is Some,
        ensures
            final(self).wf(),
            !old(self).settled(now) ==> *final(self) == *old(self) && r@.len() == 0,
            old(self).settled(now) ==> *final(self) == (Compositor { zoom_action: false, ..*old(self) }).with_recomposite(
                old(self).recomposite || (old(self).missing().len() == 0 && old(self).redisplay()))
                && old(self).request_actions(r@),
    {
        if self.zoom_action && now > self.zoom_time && now - self.zoom_time > ZOOM_SETTLE_MS {
            self.zoom_action = false;
            self.ask_for_tiles()
        } else {
            Vec::new()
        }
    }

    /// Whether the scene must be composited now; clears the mark.
    pub fn take_recomposite(&mut self) -> (r: bool)
        ensures
            r == old(self).recomposite,
            *final(self) == old(self).with_recomposite(false),
    {
        let r = self.recomposite;
        self.recomposite = false;
        r
    }

    /// A fresh compositor for a window of the given size, with no page yet.
    pub fn new(width: u32, height: u32) -> (r: Compositor)
        ensures
            r.wf(),
            r.view == Viewport::new_spec(width, height),
            r.quadtree is None,
            r.scene@.len() == 0,
            r.pipeline_id is None,
            !r.has_render_chan,
            !r.has_layout_chan,
            !r.done,
            !r.recomposite,
            !r.zoom_action,
    {
        let view = Viewport::new(Size { width: width as i64, height: height as i64 }, Size { width: 0, height: 0 });
        Compositor {
            view,
            quadtree: None,
            scene: Vec::new(),
            root: Transform::identity(),
            pipeline_id: None,
            has_render_chan: false,
            has_layout_chan: false,
            done: false,
            recomposite: false,
            zoom_action: false,
            zoom_time: 0,
        }
    }

    /// Asks the renderer for the tiles missing from the visible rectangle at
    /// the world zoom; when none are missing but some stale tile could be
    /// shown, marks the scene for recompositing.
    pub fn ask_for_tiles(&mut self) -> (r: Vec<Action>)
        requires
            old(self).wf(),
            old(self).quadtree is Some,
        ensures
            *final(self) == old(self).with_recomposite(old(self).recomposite || (old(self).missing().len() == 0 && old(self).redisplay())),
            old(self).request_actions(r@),
    {
        let vp = Rect { origin: self.view.offset, size: self.view.window };
        let (missing, redisplay) = match &self.quadtree {
            Some(q) => q.get_tile_rects(vp, self.view.world_zoom),
            None => (Vec::new(), false),
        };
        let mut r: Vec<Action> = Vec::new();
        if missing.len() > 0 {
            if self.has_render_chan {
                r.push(Action::ReRender(missing, self.view.world_zoom));
            } else {
                r.push(Action::NoRenderChan);
            }
        } else if redisplay {
            self.recomposite = true;
        }
        r
    }
}

/// The compositor's turn on the main thread once the window's events have
/// been pumped: whether to composite now (the mark is cleared), and the tile
/// request of a pinch that has settled by time `now` (milliseconds).
pub fn on_osmain(c: &mut Compositor, now: u64) -> (r: (bool, Vec<Action>))
    requires
        old(c).wf(),
        old(c).settled(now) ==> old(c).quadtree is Some,
    ensures
        final(c).wf(),
        r.0 == old(c).recomposite,
        !old(c).settled(now) ==> *final(c) == old(c).with_recomposite(false) && r.1@.len() == 0,
        old(c).settled(now) ==> ({
            let mid = Compositor { zoom_action: false, ..old(c).with_recomposite(false) };
            *final(c) == mid.with_recomposite(mid.missing().len() == 0 && mid.redisplay())
                && mid.request_actions(r.1@)
        }),
{
    let composite = c.take_recomposite();
    let actions = c.tick(now);
    (composite, actions)
}

} // verus!
