use orbink::document::{BrushColor, Document, DEFAULT_BRUSH_SCALE};
use orbink::point::{StrokePoint, Vec2};
use orbink::ribbon::build_geometry;
use orbink::sampler::Sampler;
use orbink::stroke::Stroke;

const PX: i32 = 256;

fn pt(x: i32, y: i32) -> StrokePoint {
    StrokePoint { x, y, pressure: 1000 }
}

#[test]
fn missing_pressure_is_a_full_press() {
    assert_eq!(StrokePoint::new(3, 4, None).pressure, 1000);
    assert_eq!(StrokePoint::new(3, 4, Some(250)).pressure, 250);
}

#[test]
fn first_move_is_always_accepted() {
    let mut s = Sampler::new();
    let mut stroke = s.begin_stroke(pt(0, 0), 0x00ff00, 10, 100);
    assert_eq!(s.last_sample_ms, Some(100));
    // too close and too soon, but the first move after the start
    assert!(s.offer_sample(&mut stroke, pt(1, 0), 101));
    assert_eq!(stroke.points.len(), 2);
    assert_eq!(s.last_sample_ms, Some(101));
    assert_eq!(stroke.geometry.as_ref().unwrap().triangles.len(), 2);
}

fn started() -> (Sampler, Stroke) {
    let mut s = Sampler::new();
    let mut stroke = s.begin_stroke(pt(0, 0), 0x00ff00, 10, 0);
    assert!(s.offer_sample(&mut stroke, pt(10 * PX, 0), 20));
    (s, stroke)
}

#[test]
fn close_and_soon_sample_is_dropped() {
    let (mut s, mut stroke) = started();
    // 1 px away, 5 ms later
    assert!(!s.offer_sample(&mut stroke, pt(11 * PX, 0), 25));
    assert_eq!(stroke.points.len(), 2);
    assert_eq!(s.last_sample_ms, Some(20));
    // just under 1.5 px, 15 ms later
    assert!(!s.offer_sample(&mut stroke, pt(10 * PX + 383, 0), 35));
    assert_eq!(stroke.points.len(), 2);
}

#[test]
fn far_sample_is_kept_before_the_interval() {
    let (mut s, mut stroke) = started();
    // exactly 1.5 px away, 1 ms later
    assert!(s.offer_sample(&mut stroke, pt(10 * PX + 384, 0), 21));
    assert_eq!(stroke.points.len(), 3);
    assert_eq!(s.last_sample_ms, Some(21));
    assert_eq!(stroke.geometry.as_ref().unwrap().triangles.len(), 4);
}

#[test]
fn close_sample_is_kept_after_the_interval() {
    let (mut s, mut stroke) = started();
    assert!(s.offer_sample(&mut stroke, pt(10 * PX, 0), 36));
    assert_eq!(stroke.points.len(), 3);
    assert_eq!(s.last_sample_ms, Some(36));
}

#[test]
fn clock_going_back_counts_as_too_soon() {
    let (mut s, mut stroke) = started();
    assert!(!s.offer_sample(&mut stroke, pt(10 * PX, 0), 5));
    assert_eq!(stroke.points.len(), 2);
}

#[test]
fn end_stroke_keeps_points() {
    let (mut s, stroke) = started();
    s.end_stroke();
    assert_eq!(s.last_sample_ms, None);
    assert_eq!(stroke.points.len(), 2);
}

#[test]
fn one_segment_scenario() {
    let mut d = Document::new();
    d.pointer_down(100 * PX, 100 * PX, Some(1000), 0);
    assert!(d.is_drawing);
    assert!(d.render().is_empty());
    assert!(d.pointer_move(110 * PX, 100 * PX, Some(1000), true, 1));
    d.pointer_up();
    assert!(!d.is_drawing);
    let shapes = d.render();
    assert_eq!(shapes.len(), 1);
    assert_eq!(shapes[0].color, 0x00ff00);
    let t = &shapes[0].triangles;
    assert_eq!(t.len(), 2);
    let u = 256;
    let c = |x: i64, y: i64| Vec2 { x: x * u, y: y * u };
    assert_eq!((t[0].a, t[0].b, t[0].c), (c(100, 94), c(100, 106), c(110, 106)));
    assert_eq!((t[1].a, t[1].b, t[1].c), (c(100, 94), c(110, 106), c(110, 94)));
}

#[test]
fn moves_outside_a_drag_are_ignored() {
    let mut d = Document::new();
    assert!(!d.pointer_move(5, 5, None, true, 0));
    d.pointer_down(0, 0, None, 0);
    assert!(!d.pointer_move(10 * PX, 0, None, false, 50));
    assert_eq!(d.strokes[0].points.len(), 1);
    d.pointer_up();
    assert!(!d.pointer_move(20 * PX, 0, None, true, 100));
    assert_eq!(d.strokes[0].points.len(), 1);
}

#[test]
fn drawn_geometry_matches_a_rebuild() {
    let mut d = Document::new();
    d.increase_brush();
    d.pointer_down(0, 0, Some(300), 0);
    let moves = [(5 * PX, 0, 400), (5 * PX + 10, 0, 500), (9 * PX, 3 * PX, 900), (9 * PX, 3 * PX, 100)];
    let mut now = 0;
    for (x, y, p) in moves {
        now += 20;
        assert!(d.pointer_move(x, y, Some(p), true, now));
    }
    d.pointer_up();
    let s = &d.strokes[0];
    assert_eq!(s.points.len(), 5);
    assert_eq!(s.size, 12);
    let rebuilt = build_geometry(&s.points, s.color, s.size).unwrap();
    assert_eq!(s.geometry.as_ref().unwrap().triangles, rebuilt.triangles);
}

#[test]
fn brush_size_clamps_at_the_largest_scale() {
    let mut d = Document::new();
    assert_eq!(d.brush_size, DEFAULT_BRUSH_SCALE);
    for _ in 0..5 {
        d.increase_brush();
    }
    assert_eq!(d.brush_size, 20);
    for _ in 0..20 {
        d.increase_brush();
    }
    assert_eq!(d.brush_size, 50);
    assert!(d.brush_size <= 50);
}

#[test]
fn brush_size_clamps_at_the_smallest_scale() {
    let mut d = Document::new();
    d.decrease_brush();
    assert_eq!(d.brush_size, 8);
    for _ in 0..10 {
        d.decrease_brush();
    }
    assert_eq!(d.brush_size, 2);
}

#[test]
fn palette_colors() {
    assert_eq!(BrushColor::Green.rgb(), 0x00ff00);
    assert_eq!(BrushColor::Blue.rgb(), 0x3399ff);
    assert_eq!(BrushColor::Red.rgb(), 0xff3333);
    let mut d = Document::new();
    d.set_color(BrushColor::Red);
    d.pointer_down(0, 0, None, 0);
    assert!(d.pointer_move(PX * 4, 0, None, true, 1));
    assert_eq!(d.strokes[0].color, 0xff3333);
    assert_eq!(d.render()[0].color, 0xff3333);
}

#[test]
fn clear_removes_every_stroke() {
    let mut d = Document::new();
    for k in 0..3 {
        d.pointer_down(0, k * 10 * PX, None, 0);
        assert!(d.pointer_move(20 * PX, k * 10 * PX, None, true, 30));
        d.pointer_up();
    }
    assert_eq!(d.strokes.len(), 3);
    assert_eq!(d.render().len(), 3);
    d.clear();
    assert!(d.strokes.is_empty());
    assert!(d.render().is_empty());
}

#[test]
fn render_skips_strokes_without_geometry() {
    let mut d = Document::new();
    d.pointer_down(0, 0, None, 0);
    d.pointer_up();
    d.set_color(BrushColor::Blue);
    d.pointer_down(0, 0, None, 0);
    assert!(d.pointer_move(8 * PX, 0, None, true, 20));
    d.pointer_up();
    let shapes = d.render();
    assert_eq!(shapes.len(), 1);
    assert_eq!(shapes[0].color, 0x3399ff);
}
