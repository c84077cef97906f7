use vstd::prelude::*;

use crate::oid::Oid;
use crate::point::Point;

verus! {

/// One end of an edge whose other end, a parent, has not been reached yet: the child's
/// anchor, its color and its lane.
#[derive(Clone, Copy, Debug, PartialEq, Eq, Structural)]
pub struct HistoryOid {
    pub point: Point,
    pub color: usize,
    pub lane: usize,
}

impl HistoryOid {
    pub fn new(point: Point, color: usize, lane: usize) -> (r: HistoryOid)
        ensures
            r == (HistoryOid { point, color, lane }),
    {
        HistoryOid { point, color, lane }
    }
}

/// The pending ends recorded for `oid`, in the order they were recorded.
pub open spec fn pending_for(entries: Seq<(Oid, HistoryOid)>, oid: Oid) -> Seq<HistoryOid>
    decreases entries.len(),
{
    if entries.len() == 0 {
        Seq::empty()
    } else {
        let before = pending_for(entries.drop_last(), oid);
        if entries.last().0 == oid {
            before.push(entries.last().1)
        } else {
            before
        }
    }
}

/// The pending-edge index: for each parent not reached yet, the ends that wait for it.
pub struct HistoryOids {
    history_oid: Vec<(Oid, HistoryOid)>,
}

impl HistoryOids {
    /// Every recorded end with the parent it waits for, in the order of recording.
    pub closed spec fn view(&self) -> Seq<(Oid, HistoryOid)> {
        self.history_oid@
    }

    pub fn new() -> (r: HistoryOids)
        ensures
            r@ == Seq::<(Oid, HistoryOid)>::empty(),
    {
        HistoryOids { history_oid: Vec::new() }
    }

    /// Records an end that waits for `oid`.
    pub fn add_history(&mut self, oid: Oid, history_oid: HistoryOid)
        ensures
            final(self)@ == old(self)@.push((oid, history_oid)),
    {
        self.history_oid.push((oid, history_oid));
    }

    /// The ends that wait for `oid`, oldest first; empty when none does.
    pub fn get(&self, oid: &Oid) -> (r: Vec<HistoryOid>)
        ensures
            r@ == pending_for(self@, *oid),
    {
        let mut r: Vec<HistoryOid> = Vec::new();
        let mut i: usize = 0;
        while i < self.history_oid.len()
            invariant
                i <= self@.len(),
                r@ == pending_for(self@.subrange(0, i as int), *oid),
            decreases self@.len() - i,
        {
            proof {
                assert(self@.subrange(0, i + 1).drop_last() =~= self@.subrange(0, i as int));
            }
            let (key, end) = self.history_oid[i];
            if key == *oid {
                r.push(end);
            }
            i = i + 1;
        }
        proof {
            assert(self@.subrange(0, self@.len() as int) =~= self@);
        }
        r
    }
}

} // verus!
