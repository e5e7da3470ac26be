use tile_compositor::compositor::{Action, Compositor, Msg, ScriptEvent, ScriptMsg, WindowMouseEvent};
use tile_compositor::geometry::{Point, Rect, Size};
use tile_compositor::quadtree::Tile;

fn rect(x: i64, y: i64, w: i64, h: i64) -> Rect {
    Rect::new(Point::new(x, y), Size::new(w, h))
}

fn buf(x: i64, y: i64, surface: u64) -> Tile {
    Tile { screen_pos: rect(x, y, 256, 256), rect: rect(x, y, 256, 256), resolution: 1000, surface }
}

fn rerender(actions: &[Action]) -> (Vec<Rect>, u32) {
    for a in actions {
        if let Action::ReRender(v, z) = a {
            return (v.clone(), *z);
        }
    }
    panic!("no tile request");
}

fn all_cells_800x600() -> Vec<Rect> {
    let mut v = Vec::new();
    for y in [0i64, 256, 512] {
        for x in [0i64, 256, 512, 768] {
            let w = if x == 768 { 32 } else { 256 };
            let h = if y == 512 { 88 } else { 256 };
            v.push(rect(x, y, w, h));
        }
    }
    v
}

fn cold_started() -> Compositor {
    let mut c = Compositor::new(800, 600);
    let r = c.handle_msg(Msg::NewLayer(800, 600, 256));
    assert_eq!(r.len(), 1);
    assert!(matches!(r[0], Action::NoRenderChan));
    assert!(c.quadtree.is_some());
    let r = c.handle_msg(Msg::SetLayoutRenderChans(7));
    assert_eq!(r.len(), 2);
    assert!(matches!(r[0], Action::InstallCallbacks));
    assert!(matches!(r[1], Action::Ack(7)));
    c
}

#[test]
fn cold_start() {
    let mut c = cold_started();
    let r = c.on_mouse(WindowMouseEvent::Up(0, 10, 10));
    assert_eq!(r.len(), 2);
    let (rects, zoom) = rerender(&r);
    assert_eq!(zoom, 1000);
    assert_eq!(rects, all_cells_800x600());
    assert!(matches!(r[1], Action::Script(ScriptMsg::SendEvent(ScriptEvent::MouseUp(0, Point { x: 10, y: 10 })))));
}

#[test]
fn paint_then_repaint() {
    let mut c = cold_started();
    let r = c.handle_msg(Msg::Paint(7, vec![buf(0, 0, 1), buf(256, 0, 2)], 800, 600));
    assert!(r.is_empty());
    assert_eq!(c.scene.len(), 2);
    assert_eq!(c.scene[0].surface, 1);
    assert_eq!(c.scene[1].surface, 2);
    assert!(c.recomposite);
    assert_eq!(c.view.local_zoom, 1000);
    let r = c.ask_for_tiles();
    let (rects, _) = rerender(&r);
    let expected: Vec<Rect> = all_cells_800x600().into_iter().skip(2).collect();
    assert_eq!(rects, expected);
}

#[test]
fn pipeline_mismatch() {
    let mut c = cold_started();
    c.handle_msg(Msg::Paint(7, vec![buf(0, 0, 1)], 800, 600));
    c.take_recomposite();
    let r = c.handle_msg(Msg::Paint(8, vec![buf(256, 0, 2), buf(512, 0, 3)], 800, 600));
    assert!(r.is_empty());
    assert_eq!(c.scene.len(), 1);
    assert_eq!(c.scene[0].surface, 1);
    assert!(!c.recomposite);
}

#[test]
fn scroll_clamp() {
    let mut c = Compositor::new(800, 600);
    c.handle_msg(Msg::NewLayer(1000, 800, 256));
    c.on_scroll(-500, -500);
    assert_eq!(c.view.offset, Point::new(200, 200));
    assert!(c.recomposite);
    c.on_scroll(1000, 50);
    assert_eq!(c.view.offset, Point::new(0, 150));
}

#[test]
fn zoom_then_settle() {
    let mut c = Compositor::new(800, 600);
    c.handle_msg(Msg::NewLayer(1000, 800, 256));
    c.handle_msg(Msg::SetLayoutRenderChans(7));
    c.on_zoom(2000, 0);
    assert_eq!(c.view.world_zoom, 2000);
    assert_eq!(c.view.local_zoom, 2000);
    assert_eq!(c.view.offset, Point::new(400, 300));
    assert!(c.tick(100).is_empty());
    let r = c.tick(350);
    let (_, zoom) = rerender(&r);
    assert_eq!(zoom, 2000);
    assert!(!c.zoom_action);
    assert!(c.tick(1000).is_empty());
}

#[test]
fn resize_deduplication() {
    let mut c = Compositor::new(1024, 768);
    c.handle_msg(Msg::SetLayoutRenderChans(7));
    assert!(c.on_resize(1024, 768).is_none());
    assert!(c.on_resize(1024, 768).is_none());
    assert!(matches!(c.on_resize(640, 480), Some(ScriptMsg::SendEvent(ScriptEvent::Resize(640, 480)))));
    assert_eq!(c.view.window, Size::new(640, 480));
}

#[test]
fn main_thread_turn() {
    let mut c = Compositor::new(800, 600);
    c.handle_msg(Msg::NewLayer(1000, 800, 256));
    c.handle_msg(Msg::SetLayoutRenderChans(7));
    c.on_zoom(2000, 1000);
    let (composite, actions) = tile_compositor::compositor::on_osmain(&mut c, 1200);
    assert!(composite);
    assert!(actions.is_empty());
    assert!(!c.recomposite);
    let (composite, actions) = tile_compositor::compositor::on_osmain(&mut c, 1301);
    assert!(!composite);
    let (rects, zoom) = rerender(&actions);
    assert_eq!(zoom, 2000);
    assert_eq!(rects[0], rect(256, 256, 256, 256));
}

#[test]
fn paint_records_tiles_at_world_zoom() {
    let mut c = cold_started();
    c.on_zoom(2000, 0);
    c.handle_msg(Msg::Paint(7, vec![buf(0, 0, 1), buf(256, 0, 2), buf(0, 0, 3)], 800, 600));
    let tiles = c.quadtree.as_ref().unwrap().get_all_tiles();
    assert_eq!(tiles.len(), 2);
    assert_eq!(c.scene.len(), tiles.len());
    assert!(tiles.iter().all(|t| t.resolution == 2000));
    assert!(tiles.iter().any(|t| t.screen_pos.origin == Point::new(256, 0)));
    assert_eq!(tiles[0].surface, 3);
    assert_eq!(c.view.local_zoom, 1000);
    assert_eq!(c.root.sx, 1000);
    assert_eq!(c.root.tx, -1000 * c.view.offset.x as i128);
    let t = c.scene[1].transform;
    assert_eq!((t.sx, t.tx, t.den), (256 * 2000 * 1000, 256 * 2000 * 2000, 2_000_000));
}

#[test]
fn resize_layer_evicts_tiles_outside_page() {
    let mut c = cold_started();
    c.handle_msg(Msg::Paint(7, vec![buf(0, 0, 1), buf(512, 0, 2), buf(256, 256, 3)], 800, 600));
    let r = c.handle_msg(Msg::ResizeLayer(400, 600));
    assert!(r.is_empty());
    assert_eq!(c.view.page, Size::new(400, 600));
    let q = c.quadtree.as_ref().unwrap();
    assert_eq!((q.width, q.height), (400, 600));
    let tiles = q.get_all_tiles();
    let surfaces: Vec<u64> = tiles.iter().map(|t| t.surface).collect();
    assert_eq!(surfaces, vec![1, 3]);
}

#[test]
fn repaint_replaces_tile_at_same_anchor() {
    let mut c = cold_started();
    c.handle_msg(Msg::Paint(7, vec![buf(0, 0, 1), buf(256, 0, 2)], 800, 600));
    c.handle_msg(Msg::Paint(7, vec![buf(256, 0, 5)], 800, 600));
    let tiles = c.quadtree.as_ref().unwrap().get_all_tiles();
    let surfaces: Vec<u64> = tiles.iter().map(|t| t.surface).collect();
    assert_eq!(surfaces, vec![1, 5]);
    let scene: Vec<u64> = c.scene.iter().map(|l| l.surface).collect();
    assert_eq!(scene, vec![1, 5]);
}
