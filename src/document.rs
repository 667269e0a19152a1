use vstd::prelude::*;
use crate::point::StrokePoint;
use crate::ribbon::{Shape, Triangle, MAX_BRUSH_SCALE};
use crate::sampler::{accepts, Sampler};
use crate::stroke::{Stroke, MIN_BRUSH_SCALE};

verus! {

/// Brush scale of a new document, in tenths.
pub const DEFAULT_BRUSH_SCALE: u32 = 10;

/// Change of the brush scale per toolbar step, in tenths.
pub const BRUSH_STEP: u32 = 2;

/// The fixed brush palette.
#[derive(Clone, Copy, Debug, PartialEq, Eq)]
pub enum BrushColor {
    Green,
    Blue,
    Red,
}

/// The 24-bit RGB value of a palette entry.
pub open spec fn color_rgb(c: BrushColor) -> u32 {
    match c {
        BrushColor::Green => 0x00ff00,
        BrushColor::Blue => 0x3399ff,
        BrushColor::Red => 0xff3333,
    }
}

impl BrushColor {
    /// The 24-bit RGB value of this palette entry.
    pub fn rgb(&self) -> (r: u32)
        ensures
            r == color_rgb(*self),
    {
        match self {
            BrushColor::Green => 0x00ff00,
            BrushColor::Blue => 0x3399ff,
            BrushColor::Red => 0xff3333,
        }
    }
}

/// The drawing surface's state: strokes oldest first, brush settings, and
/// whether a stroke is being drawn (the last one).
#[derive(Debug)]
pub struct Document {
    pub strokes: Vec<Stroke>,
    pub brush_size: u32,
    pub brush_color: u32,
    pub is_drawing: bool,
    pub sampler: Sampler,
}

/// The shapes a frame paints for `strokes`: the geometry of each stroke that
/// has some, oldest first.
pub open spec fn drawn(strokes: Seq<Stroke>) -> Seq<Shape>
    decreases strokes.len(),
{
    if strokes.len() == 0 {
        Seq::empty()
    } else {
        let rest = drawn(strokes.drop_last());
        match strokes.last().geometry {
            Some(g) => rest.push(g),
            None => rest,
        }
    }
}

/// `shapes` holds the same triangles and colors as `expect`, in order.
pub open spec fn same_shapes(shapes: Seq<Shape>, expect: Seq<Shape>) -> bool {
    &&& shapes.len() == expect.len()
    &&& forall|j: int|
        0 <= j < shapes.len() ==> (#[trigger] shapes[j]).triangles@ == expect[j].triangles@
            && shapes[j].color == expect[j].color
}

impl Shape {
    /// A copy of this shape.
    pub fn snapshot(&self) -> (r: Shape)
        ensures
            r.triangles@ == self.triangles@,
            r.color == self.color,
    {
        let mut tris: Vec<Triangle> = Vec::new();
        let mut i: usize = 0;
        while i < self.triangles.len()
            invariant
                i <= self.triangles@.len(),
                tris@ == self.triangles@.subrange(0, i as int),
            decreases self.triangles@.len() - i,
        {
            tris.push(self.triangles[i]);
            i = i + 1;
            assert(tris@ =~= self.triangles@.subrange(0, i as int));
        }
        assert(tris@ =~= self.triangles@);
        Shape { triangles: tris, color: self.color }
    }
}

impl Document {
    /// Brush settings in range, every stroke consistent, and a stroke to draw
    /// into while drawing.
    pub open spec fn wf(&self) -> bool {
        &&& MIN_BRUSH_SCALE <= self.brush_size <= MAX_BRUSH_SCALE
        &&& forall|i: int| 0 <= i < self.strokes@.len() ==> (#[trigger] self.strokes@[i]).wf()
        &&& self.is_drawing ==> self.strokes@.len() >= 1
    }

    /// An empty document with the default brush, in green.
    pub fn new() -> (r: Document)
        ensures
            r.wf(),
            r.strokes@.len() == 0,
            r.brush_size == DEFAULT_BRUSH_SCALE,
            r.brush_color == color_rgb(BrushColor::Green),
            !r.is_drawing,
            r.sampler.last_sample_ms is None,
    {
        Document {
            strokes: Vec::new(),
            brush_size: DEFAULT_BRUSH_SCALE,
            brush_color: BrushColor::Green.rgb(),
            is_drawing: false,
            sampler: Sampler::new(),
        }
    }

    /// Pointer pressed: starts a new stroke at `(x, y)` with the current brush.
    pub fn pointer_down(&mut self, x: i32, y: i32, pressure: Option<u16>, now: u64)
        requires
            old(self).wf(),
        ensures
            final(self).wf(),
            final(self).is_drawing,
            final(self).brush_size == old(self).brush_size,
            final(self).brush_color == old(self).brush_color,
            final(self).sampler.last_sample_ms == Some(now),
            final(self).strokes@.len() == old(self).strokes@.len() + 1,
            final(self).strokes@.drop_last() == old(self).strokes@,
            final(self).strokes@.last().points@ == seq![
                StrokePoint { x, y, pressure: StrokePoint::pressure_or_full(pressure) },
            ],
            final(self).strokes@.last().color == old(self).brush_color,
            final(self).strokes@.last().size == old(self).brush_size,
            final(self).strokes@.last().geometry is None,
    {
        let p = StrokePoint::new(x, y, pressure);
        let s = self.sampler.begin_stroke(p, self.brush_color, self.brush_size, now);
        self.strokes.push(s);
        self.is_drawing = true;
        assert(self.strokes@.drop_last() =~= old(self).strokes@);
    }

    /// Pointer moved: while drawing with the button held, offers the sample to
    /// the active stroke. Returns whether it was kept.
    pub fn pointer_move(&mut self, x: i32, y: i32, pressure: Option<u16>, dragging: bool, now: u64) -> (r: bool)
        requires
            old(self).wf(),
        ensures
            final(self).wf(),
            r == (old(self).is_drawing && dragging && accepts(
                old(self).strokes@.last().points@,
                old(self).sampler.last_sample_ms,
                StrokePoint { x, y, pressure: StrokePoint::pressure_or_full(pressure) },
                now,
            )),
            final(self).is_drawing == old(self).is_drawing,
            final(self).brush_size == old(self).brush_size,
            final(self).brush_color == old(self).brush_color,
            final(self).strokes@.len() == old(self).strokes@.len(),
            !r ==> final(self).strokes@ == old(self).strokes@,
            !r ==> final(self).sampler == old(self).sampler,
            r ==> final(self).strokes@.drop_last() == old(self).strokes@.drop_last(),
            r ==> final(self).strokes@.last().points@ == old(self).strokes@.last().points@.push(
                StrokePoint { x, y, pressure: StrokePoint::pressure_or_full(pressure) },
            ),
            r ==> final(self).strokes@.last().color == old(self).strokes@.last().color,
            r ==> final(self).strokes@.last().size == old(self).strokes@.last().size,
            r ==> final(self).sampler.last_sample_ms == Some(now),
    {
        if !self.is_drawing || !dragging {
            return false;
        }
        let p = StrokePoint::new(x, y, pressure);
        let mut active = self.strokes.pop().unwrap();
        assert(active.wf()) by {
            assert(old(self).strokes@[old(self).strokes@.len() - 1] == active);
        }
        let kept = self.sampler.offer_sample(&mut active, p, now);
        self.strokes.push(active);
        assert(self.strokes@.drop_last() =~= old(self).strokes@.drop_last());
        if !kept {
            assert(self.strokes@ =~= old(self).strokes@);
        }
        assert forall|i: int| 0 <= i < self.strokes@.len() implies (#[trigger] self.strokes@[i]).wf() by {
            if i < self.strokes@.len() - 1 {
                assert(self.strokes@[i] == old(self).strokes@[i]);
            }
        }
        kept
    }

    /// Pointer released: the active stroke is finished and kept for display.
    pub fn pointer_up(&mut self)
        requires
            old(self).wf(),
        ensures
            final(self).wf(),
            !final(self).is_drawing,
            final(self).sampler.last_sample_ms is None,
            final(self).strokes@ == old(self).strokes@,
            final(self).brush_size == old(self).brush_size,
            final(self).brush_color == old(self).brush_color,
    {
        self.sampler.end_stroke();
        self.is_drawing = false;
    }

    /// One step larger brush, at most the largest scale.
    pub fn increase_brush(&mut self)
        requires
            old(self).wf(),
        ensures
            final(self).wf(),
            final(self).brush_size == if old(self).brush_size + BRUSH_STEP > MAX_BRUSH_SCALE {
                MAX_BRUSH_SCALE as int
            } else {
                old(self).brush_size + BRUSH_STEP
            },
            final(self).strokes@ == old(self).strokes@,
            final(self).brush_color == old(self).brush_color,
            final(self).is_drawing == old(self).is_drawing,
            final(self).sampler == old(self).sampler,
    {
        let s = self.brush_size + BRUSH_STEP;
        self.brush_size = if s > MAX_BRUSH_SCALE { MAX_BRUSH_SCALE } else { s };
    }

    /// One step smaller brush, at least the smallest scale.
    pub fn decrease_brush(&mut self)
        requires
            old(self).wf(),
        ensures
            final(self).wf(),
            final(self).brush_size == if old(self).brush_size < MIN_BRUSH_SCALE + BRUSH_STEP {
                MIN_BRUSH_SCALE as int
            } else {
                old(self).brush_size - BRUSH_STEP
            },
            final(self).strokes@ == old(self).strokes@,
            final(self).brush_color == old(self).brush_color,
            final(self).is_drawing == old(self).is_drawing,
            final(self).sampler == old(self).sampler,
    {
        self.brush_size = if self.brush_size < MIN_BRUSH_SCALE + BRUSH_STEP {
            MIN_BRUSH_SCALE
        } else {
            self.brush_size - BRUSH_STEP
        };
    }

    /// Picks the brush color for the strokes that follow.
    pub fn set_color(&mut self, color: BrushColor)
        requires
            old(self).wf(),
        ensures
            final(self).wf(),
            final(self).brush_color == color_rgb(color),
            final(self).strokes@ == old(self).strokes@,
            final(self).brush_size == old(self).brush_size,
            final(self).is_drawing == old(self).is_drawing,
            final(self).sampler == old(self).sampler,
    {
        self.brush_color = color.rgb();
    }

    /// Discards every stroke, the one being drawn included.
    pub fn clear(&mut self)
        requires
            old(self).wf(),
        ensures
            final(self).wf(),
            final(self).strokes@.len() == 0,
            !final(self).is_drawing,
            final(self).sampler.last_sample_ms is None,
            final(self).brush_size == old(self).brush_size,
            final(self).brush_color == old(self).brush_color,
    {
        self.strokes = Vec::new();
        self.is_drawing = false;
        self.sampler.end_stroke();
    }

    /// A snapshot of what a frame paints: each stroke's shape in its color,
    /// oldest first; strokes without geometry are left out.
    pub fn render(&self) -> (r: Vec<Shape>)
        ensures
            same_shapes(r@, drawn(self.strokes@)),
    {
        let mut out: Vec<Shape> = Vec::new();
        let mut i: usize = 0;
        while i < self.strokes.len()
            invariant
                i <= self.strokes@.len(),
                same_shapes(out@, drawn(self.strokes@.subrange(0, i as int))),
            decreases self.strokes@.len() - i,
        {
            let ghost pre = self.strokes@.subrange(0, i as int);
            let ghost next = self.strokes@.subrange(0, i + 1);
            assert(next.drop_last() =~= pre);
            match &self.strokes[i].geometry {
                Some(g) => {
                    let c = g.snapshot();
                    out.push(c);
                },
                None => {},
            }
            i = i + 1;
        }
        assert(self.strokes@.subrange(0, self.strokes@.len() as int) =~= self.strokes@);
        out
    }
}

} // verus!
