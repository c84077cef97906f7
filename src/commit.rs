use vstd::prelude::*;

use crate::oid::Oid;
use crate::point::Point;

verus! {

/// A commit placed in the graph: its data, where it is drawn, and its palette color.
#[derive(Debug, Clone)]
pub struct CommitNode {
    pub oid: Oid,
    pub message: String,
    pub author: String,
    /// Seconds since the epoch.
    pub timestamp: i64,
    pub parents: Vec<Oid>,
    pub position: Point,
    pub color: usize,
}

impl CommitNode {
    pub fn new(
        oid: Oid,
        message: String,
        author: String,
        timestamp: i64,
        parents: Vec<Oid>,
        position: Point,
        color: usize,
    ) -> (r: CommitNode)
        ensures
            r.oid == oid,
            r.message == message,
            r.author == author,
            r.timestamp == timestamp,
            r.parents == parents,
            r.position == position,
            r.color == color,
    {
        CommitNode { oid, message, author, timestamp, parents, position, color }
    }
}

} // verus!
