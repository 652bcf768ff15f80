//! Point-cloud frames: a list of points with acquisition metadata and the
//! organized (width × height) layout they are stored in.

use vstd::prelude::*;

verus! {

/// One point cloud, generic over the point type.
#[derive(Debug, Clone)]
pub struct Frame<T> {
    pub stamp_micros: u64,
    pub sequence: u64,
    pub frame_id: String,
    pub width: usize,
    pub height: usize,
    pub is_dense: bool,
    pub points: Vec<T>,
}

impl<T> Frame<T> {
    /// An empty, dense, unorganized frame named `frame_id`.
    pub fn new(frame_id: &str) -> (r: Self)
        ensures
            r.stamp_micros == 0,
            r.sequence == 0,
            r.frame_id@ == frame_id@,
            r.width == 0,
            r.height == 1,
            r.is_dense,
            r.points@.len() == 0,
    {
        Frame {
            stamp_micros: 0,
            sequence: 0,
            frame_id: frame_id.to_owned(),
            width: 0,
            height: 1,
            is_dense: true,
            points: Vec::new(),
        }
    }

    /// A dense, unorganized frame holding `points` in one row.
    pub fn with_points(frame_id: &str, points: Vec<T>) -> (r: Self)
        ensures
            r.stamp_micros == 0,
            r.sequence == 0,
            r.frame_id@ == frame_id@,
            r.width == points@.len(),
            r.height == 1,
            r.is_dense,
            r.points@ == points@,
    {
        let width = points.len();
        Frame {
            stamp_micros: 0,
            sequence: 0,
            frame_id: frame_id.to_owned(),
            width,
            height: 1,
            is_dense: true,
            points,
        }
    }

    /// A frame with the same metadata and layout whose points are those of
    /// this frame mapped by `f`, in the same order.
    pub fn map_points<U, F: Fn(&T) -> U>(&self, f: F) -> (r: Frame<U>)
        requires
            forall|i: int| 0 <= i < self.points@.len() ==> call_requires(f, (&self.points@[i],)),
        ensures
            r.stamp_micros == self.stamp_micros,
            r.sequence == self.sequence,
            r.frame_id@ == self.frame_id@,
            r.width == self.width,
            r.height == self.height,
            r.is_dense == self.is_dense,
            r.points@.len() == self.points@.len(),
            forall|i: int| 0 <= i < self.points@.len() ==> call_ensures(f, (&self.points@[i],), #[trigger] r.points@[i]),
    {
        let mut points: Vec<U> = Vec::new();
        let mut i: usize = 0;
        while i < self.points.len()
            invariant
                i <= self.points@.len(),
                points@.len() == i,
                forall|k: int| 0 <= k < self.points@.len() ==> call_requires(f, (&self.points@[k],)),
                forall|k: int| 0 <= k < i ==> call_ensures(f, (&self.points@[k],), #[trigger] points@[k]),
            decreases self.points.len() - i,
        {
            let p = f(&self.points[i]);
            points.push(p);
            i = i + 1;
        }
        Frame {
            stamp_micros: self.stamp_micros,
            sequence: self.sequence,
            frame_id: self.frame_id.clone(),
            width: self.width,
            height: self.height,
            is_dense: self.is_dense,
            points,
        }
    }

    /// Number of points.
    pub fn len(&self) -> (r: usize)
        ensures
            r == self.points@.len(),
    {
        self.points.len()
    }

    /// Whether the frame holds no point.
    pub fn is_empty(&self) -> (r: bool)
        ensures
            r == (self.points@.len() == 0),
    {
        self.points.len() == 0
    }

    /// Lays the points out as a single row.
    pub fn refresh_unorganized_dims(&mut self)
        ensures
            final(self).height == 1,
            final(self).width == old(self).points@.len(),
            final(self).points@ == old(self).points@,
            final(self).stamp_micros == old(self).stamp_micros,
            final(self).sequence == old(self).sequence,
            final(self).frame_id == old(self).frame_id,
            final(self).is_dense == old(self).is_dense,
    {
        self.height = 1;
        self.width = self.points.len();
    }
}

} // verus!
