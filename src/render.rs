//! The flat list of paths handed to a renderer: every path's points stored
//! back to back in one buffer, with an offset and a length per path.

use vstd::prelude::*;

verus! {

/// Where a path's points lie in the shared point buffer.
#[derive(Clone, Copy, Debug, PartialEq, Eq)]
pub struct Path {
    pub offset: usize,
    pub length: usize,
}

/// Whether a path is drawn back to its first point.
#[derive(Clone, Copy, Debug, PartialEq, Eq)]
pub enum PathEnd {
    Open,
    Closed,
}

/// Paths over points of type `P`, each with a draw opacity of type `A` and an
/// end.
pub struct PathList<P, A> {
    paths: Vec<Path>,
    alphas: Vec<A>,
    ends: Vec<PathEnd>,
    points: Vec<P>,
}

/// Where the points of the last of `paths` end (0 when there is none).
pub open spec fn end_of(paths: Seq<Path>) -> int {
    if paths.len() == 0 {
        0
    } else {
        paths.last().offset + paths.last().length
    }
}

impl<P, A> View for PathList<P, A> {
    type V = Seq<(Seq<P>, A, PathEnd)>;

    /// Each path's points, opacity and end, in the order they were pushed.
    closed spec fn view(&self) -> Seq<(Seq<P>, A, PathEnd)> {
        Seq::new(
            self.paths@.len(),
            |i: int|
                (
                    self.points@.subrange(
                        self.paths[i].offset as int,
                        self.paths[i].offset + self.paths[i].length,
                    ),
                    self.alphas[i],
                    self.ends[i],
                ),
        )
    }
}

impl<P, A> PathList<P, A> {
    /// The paths lie back to back, in order, and fill the point buffer.
    pub closed spec fn wf(&self) -> bool {
        &&& self.alphas.len() == self.paths.len()
        &&& self.ends.len() == self.paths.len()
        &&& self.points.len() == end_of(self.paths@)
        &&& forall|i: int|
            0 <= i < self.paths.len() ==> #[trigger] self.paths[i].offset + self.paths[i].length
                <= self.points.len()
        &&& forall|i: int|
            0 <= i < self.paths.len() ==> #[trigger] self.paths[i].offset == if i == 0 {
                0
            } else {
                self.paths[i - 1].offset + self.paths[i - 1].length
            }
    }

    /// The path table, as the renderer reads it.
    pub closed spec fn path_table(&self) -> Seq<Path> {
        self.paths@
    }

    /// The point buffer, as the renderer reads it.
    pub closed spec fn point_buffer(&self) -> Seq<P> {
        self.points@
    }

    /// An empty list.
    pub fn new() -> (r: Self)
        ensures
            r.wf(),
            r@.len() == 0,
            r.point_buffer().len() == 0,
    {
        let r = PathList { paths: Vec::new(), alphas: Vec::new(), ends: Vec::new(), points: Vec::new() };
        assert(r@ =~= Seq::empty());
        r
    }

    /// Appends a path, moving its points out of `points`. An empty path is
    /// not recorded.
    pub fn push(&mut self, points: &mut Vec<P>, alpha: A, end: PathEnd)
        requires
            old(self).wf(),
        ensures
            final(self).wf(),
            old(points)@.len() == 0 ==> final(self)@ == old(self)@,
            old(points)@.len() > 0 ==> final(self)@ == old(self)@.push((old(points)@, alpha, end)),
            final(self).point_buffer() == old(self).point_buffer() + old(points)@,
            final(points)@.len() == 0,
    {
        if points.len() == 0 {
            return;
        }
        let path = Path { offset: self.points.len(), length: points.len() };
        let ghost before = self.points@;
        self.paths.push(path);
        self.alphas.push(alpha);
        self.ends.push(end);
        self.points.append(points);
        proof {
            assert(self.points@ =~= before + old(points)@);
            assert forall|i: int| 0 <= i < old(self).paths.len() implies
                #[trigger] self.points@.subrange(
                self.paths[i].offset as int,
                self.paths[i].offset + self.paths[i].length,
            ) =~= before.subrange(self.paths[i].offset as int, self.paths[i].offset + self.paths[i].length) by {
                assert(self.paths[i] == old(self).paths[i]);
            }
            assert(self.points@.subrange(path.offset as int, path.offset + path.length)
                =~= old(points)@);
            assert(self@ =~= old(self)@.push((old(points)@, alpha, end)));
        }
    }

    /// How many paths the list holds.
    pub fn length(&self) -> (r: usize)
        ensures
            r == self@.len(),
    {
        self.paths.len()
    }

    /// How many points all paths hold together.
    pub fn points_length(&self) -> (r: usize)
        ensures
            r == self.point_buffer().len(),
    {
        self.points.len()
    }

    /// The path table: path `i` holds the points `offset .. offset + length`
    /// of the point buffer.
    pub fn paths(&self) -> (r: &Vec<Path>)
        requires
            self.wf(),
        ensures
            r@ == self.path_table(),
            r.len() == self@.len(),
            forall|i: int|
                0 <= i < r.len() ==> r[i].offset + r[i].length <= self.point_buffer().len()
                    && #[trigger] self@[i].0 == self.point_buffer().subrange(
                    r[i].offset as int,
                    r[i].offset + r[i].length,
                ),
    {
        &self.paths
    }

    /// The opacity of each path.
    pub fn alphas(&self) -> (r: &Vec<A>)
        requires
            self.wf(),
        ensures
            r.len() == self@.len(),
            forall|i: int| 0 <= i < r.len() ==> r[i] == #[trigger] self@[i].1,
    {
        &self.alphas
    }

    /// The end of each path.
    pub fn ends(&self) -> (r: &Vec<PathEnd>)
        requires
            self.wf(),
        ensures
            r.len() == self@.len(),
            forall|i: int| 0 <= i < r.len() ==> r[i] == #[trigger] self@[i].2,
    {
        &self.ends
    }

    /// The point buffer.
    pub fn points(&self) -> (r: &Vec<P>)
        ensures
            r@ == self.point_buffer(),
    {
        &self.points
    }
}

} // verus!
