use vstd::prelude::*;
use crate::point::StrokePoint;
use crate::ribbon::{
    append_segment, geometry_ok, lemma_ribbon_extend, ribbon_ok, Shape, Triangle,
    MAX_BRUSH_SCALE,
};

verus! {

/// Smallest brush scale, in tenths.
pub const MIN_BRUSH_SCALE: u32 = 2;

/// One ink stroke: its samples in order, its color, its brush scale, and the
/// geometry built from its samples.
#[derive(Debug)]
pub struct Stroke {
    pub points: Vec<StrokePoint>,
    pub color: u32,
    pub size: u32,
    pub geometry: Option<Shape>,
}

impl Stroke {
    /// A stroke holds at least one point, its scale lies in the brush range, and
    /// its geometry is the one its points give: never stale.
    pub open spec fn wf(&self) -> bool {
        &&& self.points@.len() >= 1
        &&& MIN_BRUSH_SCALE <= self.size <= MAX_BRUSH_SCALE
        &&& geometry_ok(self.geometry, self.points@, self.color, self.size as int)
    }

    /// A stroke of the single point `p`.
    pub fn start(p: StrokePoint, color: u32, size: u32) -> (r: Stroke)
        requires
            MIN_BRUSH_SCALE <= size <= MAX_BRUSH_SCALE,
        ensures
            r.wf(),
            r.points@ == seq![p],
            r.color == color,
            r.size == size,
            r.geometry is None,
    {
        let mut points = Vec::new();
        points.push(p);
        assert(points@ =~= seq![p]);
        Stroke { points, color, size, geometry: None }
    }

    /// Appends `p` and extends the geometry by the one new segment.
    pub fn push_point(&mut self, p: StrokePoint)
        requires
            old(self).wf(),
        ensures
            final(self).wf(),
            final(self).points@ == old(self).points@.push(p),
            final(self).color == old(self).color,
            final(self).size == old(self).size,
    {
        let last = self.points[self.points.len() - 1];
        let ghost old_pts = self.points@;
        self.points.push(p);
        let size = self.size;
        match &mut self.geometry {
            Some(shape) => {
                let ghost before = shape.triangles@;
                append_segment(shape, last, p, size);
                proof {
                    let after = shape.triangles@;
                    lemma_ribbon_extend(
                        before,
                        old_pts,
                        after[before.len() as int],
                        after[before.len() as int + 1],
                        p,
                        size as int,
                    );
                    assert(before.push(after[before.len() as int]).push(
                        after[before.len() as int + 1],
                    ) =~= after);
                }
            },
            None => {
                let mut shape = Shape { triangles: Vec::new(), color: self.color };
                append_segment(&mut shape, last, p, size);
                proof {
                    let after = shape.triangles@;
                    let empty = Seq::<Triangle>::empty();
                    assert(ribbon_ok(empty, old_pts, size as int));
                    lemma_ribbon_extend(empty, old_pts, after[0], after[1], p, size as int);
                    assert(empty.push(after[0]).push(after[1]) =~= after);
                }
                self.geometry = Some(shape);
            },
        }
    }
}

} // verus!
