use vstd::prelude::*;

use crate::point::Point;

verus! {

/// A connector ready to draw: from one commit's anchor to another's, in a palette color.
#[derive(Clone, Copy, Debug, PartialEq, Eq, Structural)]
pub struct Edge {
    pub from: Point,
    pub to: Point,
    pub color: usize,
}

impl Edge {
    pub fn new(from: Point, to: Point, color: usize) -> (r: Edge)
        ensures
            r == (Edge { from, to, color }),
    {
        Edge { from, to, color }
    }

    /// How this edge is drawn.
    pub fn shape(&self) -> (r: PathShape)
        ensures
            r == edge_shape(self.from, self.to),
    {
        if self.from.x == self.to.x {
            PathShape::Line
        } else if self.from.x > self.to.x {
            PathShape::Curve { control: Point::new(self.from.x, self.to.y) }
        } else {
            PathShape::Curve { control: Point::new(self.to.x, self.from.y) }
        }
    }
}

/// How an edge is drawn: a straight segment, or a cubic curve whose two control points
/// are both `control`.
#[derive(Clone, Copy, Debug, PartialEq, Eq, Structural)]
pub enum PathShape {
    Line,
    Curve { control: Point },
}

/// Edges within one lane are straight. An edge that runs leftwards first goes down its own
/// lane and then bends into the target's row; one that runs rightwards first goes along
/// the source's row and then bends down into the target's lane.
pub open spec fn edge_shape(from: Point, to: Point) -> PathShape {
    if from.x == to.x {
        PathShape::Line
    } else if from.x > to.x {
        PathShape::Curve { control: Point { x: from.x, y: to.y } }
    } else {
        PathShape::Curve { control: Point { x: to.x, y: from.y } }
    }
}

/// Collects the finished edges of a pass, in the order they are found.
#[derive(Debug)]
pub struct EdgeManager {
    edges: Vec<Edge>,
}

impl EdgeManager {
    pub closed spec fn view(&self) -> Seq<Edge> {
        self.edges@
    }

    pub fn new() -> (r: EdgeManager)
        ensures
            r@ == Seq::<Edge>::empty(),
    {
        EdgeManager { edges: Vec::new() }
    }

    pub fn add(&mut self, from: Point, to: Point, color: usize)
        ensures
            final(self)@ == old(self)@.push(Edge { from, to, color }),
    {
        self.edges.push(Edge::new(from, to, color));
    }

    /// Hands out the edges collected so far and starts again from none.
    pub fn take_edges(&mut self) -> (r: Vec<Edge>)
        ensures
            r@ == old(self)@,
            final(self)@ == Seq::<Edge>::empty(),
    {
        let mut taken: Vec<Edge> = Vec::new();
        std::mem::swap(&mut taken, &mut self.edges);
        taken
    }
}

} // verus!
