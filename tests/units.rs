use tile_compositor::compositor::{tile_transform, Compositor, Msg, NavigationDirection, ScriptMsg};
use tile_compositor::geometry::{Point, Rect, Size};
use tile_compositor::quadtree::{Quadtree, Tile};
use tile_compositor::viewport::{clamp_round_exec, Transform, Viewport};

fn rect(x: i64, y: i64, w: i64, h: i64) -> Rect {
    Rect::new(Point::new(x, y), Size::new(w, h))
}

fn tile(x: i64, y: i64, resolution: u32) -> Tile {
    Tile { screen_pos: rect(x, y, 100, 100), rect: rect(x, y, 100, 100), resolution, surface: 9 }
}

#[test]
fn quadtree_round_trip() {
    let mut q = Quadtree::new(0, 0, 300, 300, 100);
    assert!(q.add_tile(100, 200, 1500, tile(100, 200, 1500)));
    let (missing, redisplay) = q.get_tile_rects(rect(100, 200, 100, 100), 1500);
    assert!(missing.is_empty());
    assert!(!redisplay);
}

#[test]
fn quadtree_replaces_same_slot() {
    let mut q = Quadtree::new(0, 0, 300, 300, 100);
    assert!(q.add_tile(0, 0, 1000, tile(0, 0, 1000)));
    let mut t = tile(0, 0, 1000);
    t.surface = 42;
    assert!(q.add_tile(0, 0, 1000, t));
    assert!(q.add_tile(0, 0, 2000, tile(0, 0, 2000)));
    let all = q.get_all_tiles();
    assert_eq!(all.len(), 2);
    assert_eq!(all[0].surface, 42);
    assert_eq!(all[1].resolution, 2000);
}

#[test]
fn quadtree_refuses_outside_anchor() {
    let mut q = Quadtree::new(0, 0, 300, 300, 100);
    assert!(!q.add_tile(300, 0, 1000, tile(300, 0, 1000)));
    assert!(q.get_all_tiles().is_empty());
}

#[test]
fn quadtree_records_given_resolution() {
    let mut q = Quadtree::new(0, 0, 300, 300, 100);
    q.add_tile(0, 0, 3000, tile(0, 0, 1000));
    assert_eq!(q.get_all_tiles()[0].resolution, 3000);
}

#[test]
fn stale_tile_asks_for_redisplay() {
    let mut q = Quadtree::new(0, 0, 300, 300, 100);
    q.add_tile(0, 0, 1000, tile(0, 0, 1000));
    let (missing, redisplay) = q.get_tile_rects(rect(0, 0, 100, 100), 2000);
    assert_eq!(missing, vec![rect(0, 0, 100, 100)]);
    assert!(redisplay);
}

#[test]
fn viewport_clipped_to_page() {
    let q = Quadtree::new(0, 0, 250, 150, 100);
    let (missing, redisplay) = q.get_tile_rects(rect(-50, 50, 1000, 1000), 1000);
    assert_eq!(missing, vec![rect(0, 0, 100, 100), rect(100, 0, 100, 100), rect(200, 0, 50, 100),
        rect(0, 100, 100, 50), rect(100, 100, 100, 50), rect(200, 100, 50, 50)]);
    assert!(!redisplay);
    let (missing, _) = q.get_tile_rects(rect(300, 0, 10, 10), 1000);
    assert!(missing.is_empty());
    let (missing, _) = q.get_tile_rects(rect(0, 0, 0, 10), 1000);
    assert!(missing.is_empty());
}

#[test]
fn clamp_rounds_half_away_from_zero() {
    assert_eq!(clamp_round_exec(5, 2, 10_000, 1000), 3);
    assert_eq!(clamp_round_exec(-5, 1, 10_000, 1000), 0);
    assert_eq!(clamp_round_exec(50, 1, 10_500, 1000), 11);
    assert_eq!(clamp_round_exec(50, 1, -100, 1000), 0);
}

#[test]
fn zoom_never_below_one() {
    let mut v = Viewport::new(Size::new(800, 600), Size::new(1000, 800));
    v.zoom(500);
    assert_eq!(v.world_zoom, 1000);
    assert_eq!(v.local_zoom, 1000);
    v.zoom(3000);
    v.zoom(100);
    assert_eq!(v.world_zoom, 1000);
    assert_eq!(v.local_zoom, 1000);
}

#[test]
fn zoom_out_reclamps_offset() {
    let mut v = Viewport::new(Size::new(800, 600), Size::new(1000, 800));
    v.zoom(2000);
    v.scroll(-800, -700);
    assert_eq!(v.offset, Point::new(1200, 1000));
    v.zoom(500);
    assert_eq!(v.world_zoom, 1000);
    assert_eq!(v.local_zoom, 1000);
    assert_eq!(v.offset, Point::new(200, 200));
}

#[test]
fn root_transform_value() {
    let mut v = Viewport::new(Size::new(800, 600), Size::new(1000, 800));
    v.scroll(-30, -40);
    v.zoom(1500);
    let t = v.root_transform();
    assert_eq!(t, Transform { sx: 1500, sy: 1500, tx: -1000 * v.offset.x as i128, ty: -1000 * v.offset.y as i128, den: 1000 });
    assert_eq!(v.offset, Point::new(245, 210));
}

#[test]
fn tile_transform_value() {
    let t = Tile { screen_pos: rect(0, 0, 256, 128), rect: rect(512, 256, 256, 128), resolution: 2000, surface: 1 };
    let m = tile_transform(&t, 1000);
    assert_eq!(m, Transform { sx: 256_000_000, sy: 128_000_000, tx: 512 * 1000 * 2000, ty: 256 * 1000 * 2000, den: 2_000_000 });
}

#[test]
fn messages_before_channels() {
    let mut c = Compositor::new(800, 600);
    assert!(c.on_resize(10, 10).is_none());
    assert!(c.on_navigate(NavigationDirection::Back).is_none());
    assert!(c.on_mouse(tile_compositor::compositor::WindowMouseEvent::Click(0, 1, 1)).is_empty());
    c.handle_msg(Msg::SetLayoutRenderChans(3));
    assert!(matches!(c.on_navigate(NavigationDirection::Back), Some(ScriptMsg::Navigate(NavigationDirection::Back))));
    match c.on_load_url(String::from("http://example.com/")) {
        Some(ScriptMsg::Load(s)) => assert_eq!(s, "http://example.com/"),
        _ => panic!("expected a load"),
    }
    let r = c.handle_msg(Msg::Exit);
    assert!(r.is_empty());
    assert!(c.done);
}

#[test]
fn accepts_checks_paint() {
    let c = Compositor::new(800, 600);
    assert!(!c.accepts(&Msg::NewLayer(10, 10, 0)));
    assert!(c.accepts(&Msg::Paint(1, vec![], 10, 10)));
    let mut c = Compositor::new(800, 600);
    c.handle_msg(Msg::SetLayoutRenderChans(1));
    assert!(!c.accepts(&Msg::Paint(1, vec![], 10, 10)));
}

#[test]
fn quadtree_resize_keeps_order() {
    let mut q = Quadtree::new(0, 0, 300, 300, 100);
    q.add_tile(200, 0, 1000, tile(200, 0, 1000));
    q.add_tile(0, 0, 1000, tile(0, 0, 1000));
    q.add_tile(100, 200, 1000, tile(100, 200, 1000));
    q.add_tile(0, 100, 1000, tile(0, 100, 1000));
    q.resize(150, 300);
    let anchors: Vec<(i64, i64)> = q.slots.iter().map(|s| (s.x, s.y)).collect();
    assert_eq!(anchors, vec![(0, 0), (100, 200), (0, 100)]);
    assert_eq!(q.width, 150);
    assert!(!q.add_tile(200, 0, 1000, tile(200, 0, 1000)));
}
