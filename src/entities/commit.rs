use vstd::prelude::*;

use crate::oid::Oid;

verus! {

/// A commit as the history source yields it.
#[derive(Debug, Clone)]
pub struct CommitNode {
    pub oid: Oid,
    pub message: String,
    pub author: String,
    /// Seconds since the epoch.
    pub timestamp: i64,
    pub parents: Vec<Oid>,
}

impl CommitNode {
    pub fn new(oid: Oid, message: String, author: String, timestamp: i64, parents: Vec<Oid>) -> (r:
        CommitNode)
        ensures
            r.oid == oid,
            r.message == message,
            r.author == author,
            r.timestamp == timestamp,
            r.parents == parents,
    {
        CommitNode { oid, message, author, timestamp, parents }
    }
}

} // verus!
