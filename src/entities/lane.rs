use vstd::prelude::*;

use crate::lane::{
    append_parents, chain, commit_slot, find_slot, holds, lanes_wf, lemma_append_parents_unique,
    lemma_release_commit, lemma_trim_wf, lemma_unique_update, release_commit, trim, trim_lanes,
    unique_slots,
};
use crate::oid::Oid;

verus! {

/// Index in `parents` of the first parent that some slot already waits for.
pub open spec fn continuing_index(lanes: Seq<Option<Oid>>, parents: Seq<Oid>) -> Option<int> {
    parents.map_values(|p: Oid| holds(lanes, p)).index_of_first(true)
}

/// The freed table once the commit's lane is handed on, with the lane the commit is drawn in.
///
/// The first parent that some slot already waits for continues the lane: its old slot is
/// removed (the slots above it move down by one, the commit's lane with them) and the
/// commit's lane waits for it. Without such a parent the first parent, if any, takes the lane.
pub open spec fn hand_on(freed: Seq<Option<Oid>>, lane: int, parents: Seq<Oid>) -> (
    Seq<Option<Oid>>,
    int,
) {
    match continuing_index(freed, parents) {
        Some(j) => {
            let p = parents[j];
            let s = commit_slot(freed, p);
            if s < lane {
                (freed.remove(s).update(lane - 1, Some(p)), lane - 1)
            } else if s > lane {
                (freed.remove(s).update(lane, Some(p)), lane)
            } else {
                (freed.update(lane, Some(p)), lane)
            }
        },
        None => {
            if parents.len() > 0 {
                (freed.update(lane, Some(parents[0])), lane)
            } else {
                (freed, lane)
            }
        },
    }
}

/// Assignment with merge collapsing: the table after the commit and the lane it is drawn in.
pub open spec fn merge_assign(lanes: Seq<Option<Oid>>, id: Oid, parents: Seq<Oid>) -> (
    Seq<Option<Oid>>,
    int,
) {
    let freed = release_commit(lanes, id);
    let (placed, lane) = hand_on(freed, commit_slot(lanes, id), parents);
    (trim(append_parents(placed, parents)), lane)
}

/// Removing a slot keeps the slots unique, and nothing waits any more for what it held.
pub proof fn lemma_unique_remove(lanes: Seq<Option<Oid>>, s: int)
    requires
        unique_slots(lanes),
        0 <= s < lanes.len(),
    ensures
        unique_slots(lanes.remove(s)),
        lanes[s] is Some ==> !holds(lanes.remove(s), lanes[s]->0),
{
    let r = lanes.remove(s);
    assert forall|i: int| 0 <= i < r.len() implies #[trigger] r[i] == if i < s {
        lanes[i]
    } else {
        lanes[i + 1]
    } by {}
    assert forall|i: int, j: int|
        0 <= i < r.len() && 0 <= j < r.len() && i != j && (#[trigger] r[i]) is Some implies r[i]
        != #[trigger] r[j] by {
        let a = if i < s {
            i
        } else {
            i + 1
        };
        let b = if j < s {
            j
        } else {
            j + 1
        };
        assert(r[i] == lanes[a] && r[j] == lanes[b]);
    }
    if lanes[s] is Some && holds(r, lanes[s]->0) {
        let i = choose|i: int| 0 <= i < r.len() && r[i] == Some(lanes[s]->0);
        let a = if i < s {
            i
        } else {
            i + 1
        };
        assert(lanes[a] == lanes[s]);
    }
}

/// Handing the lane on keeps the slots unique and the lane inside the table.
pub proof fn lemma_hand_on(freed: Seq<Option<Oid>>, lane: int, parents: Seq<Oid>)
    requires
        unique_slots(freed),
        0 <= lane < freed.len(),
        freed[lane] is None,
    ensures
        unique_slots(hand_on(freed, lane, parents).0),
        0 <= hand_on(freed, lane, parents).1 < hand_on(freed, lane, parents).0.len(),
{
    let m = parents.map_values(|p: Oid| holds(freed, p));
    m.index_of_first_ensures(true);
    match continuing_index(freed, parents) {
        Some(j) => {
            let p = parents[j];
            assert(m[j]);
            assert(holds(freed, p));
            freed.index_of_first_ensures(Some(p));
            let s = commit_slot(freed, p);
            assert(freed[s] == Some(p));
            if s != lane {
                lemma_unique_remove(freed, s);
                let r = freed.remove(s);
                let at = if s < lane {
                    lane - 1
                } else {
                    lane
                };
                lemma_unique_update(r, at, Some(p));
            }
        },
        None => {
            if parents.len() > 0 {
                assert(!m[0]);
                lemma_unique_update(freed, lane, Some(parents[0]));
            }
        },
    }
}

/// The first parent that some slot waits for, as `continuing_index` gives it.
fn first_held_parent(lanes: &Vec<Option<Oid>>, parents: &[Oid]) -> (r: Option<usize>)
    ensures
        match r {
            Some(j) => continuing_index(lanes@, parents@) == Some(j as int),
            None => continuing_index(lanes@, parents@) is None,
        },
{
    let ghost m = parents@.map_values(|p: Oid| holds(lanes@, p));
    let mut i: usize = 0;
    while i < parents.len()
        invariant
            i <= parents@.len(),
            m == parents@.map_values(|p: Oid| holds(lanes@, p)),
            forall|j: int| 0 <= j < i ==> !m[j],
        decreases parents@.len() - i,
    {
        let found = find_slot(lanes, parents[i]);
        proof {
            lanes@.index_of_first_ensures(Some(parents@[i as int]));
        }
        if found.is_some() {
            proof {
                assert(m[i as int]);
                m.index_of_first_ensures(true);
                let k = m.index_of_first(true)->0;
                if k < i {
                    assert(!m[k]);
                }
            }
            return Some(i);
        }
        i = i + 1;
    }
    proof {
        m.index_of_first_ensures(true);
    }
    None
}

/// The table after each commit of `commits` is assigned in turn.
pub open spec fn merge_run(lanes: Seq<Option<Oid>>, commits: Seq<(Oid, Seq<Oid>)>) -> Seq<
    Option<Oid>,
>
    decreases commits.len(),
{
    if commits.len() == 0 {
        lanes
    } else {
        let before = merge_run(lanes, commits.drop_last());
        merge_assign(before, commits.last().0, commits.last().1).0
    }
}

/// `index_of_first` finds the first place that holds `x`.
pub proof fn lemma_first_at<A>(s: Seq<A>, x: A, i: int)
    requires
        0 <= i < s.len(),
        s[i] == x,
        forall|j: int| 0 <= j < i ==> s[j] != x,
    ensures
        s.index_of_first(x) == Some(i),
{
    s.index_of_first_ensures(x);
    let k = s.index_of_first(x)->0;
    if k < i {
        assert(s[k] != x);
    }
    if k > i {
        assert(s[i] != x);
    }
}

/// A commit on a single lane that hands it on to its one parent leaves the parent alone on it.
pub proof fn lemma_chain_step(lanes: Seq<Option<Oid>>, c: Oid, p: Oid)
    requires
        lanes == seq![Some(c)] || lanes.len() == 0,
    ensures
        merge_assign(lanes, c, seq![p]).0 == seq![Some(p)],
{
    lanes.index_of_first_ensures(Some(c));
    if lanes.len() == 1 {
        lemma_first_at(lanes, Some(c), 0);
    }
    let freed = release_commit(lanes, c);
    assert(freed =~= seq![None::<Oid>]);
    let m = seq![p].map_values(|q: Oid| holds(freed, q));
    assert(!holds(freed, p));
    assert(m =~= seq![false]);
    m.index_of_first_ensures(true);
    let placed = hand_on(freed, commit_slot(lanes, c), seq![p]);
    assert(placed.0 =~= seq![Some(p)]);
    assert(placed.0[0] == Some(p));
    assert(holds(placed.0, p));
    assert(seq![p].drop_last() =~= Seq::<Oid>::empty());
    assert(append_parents(placed.0, Seq::<Oid>::empty()) == placed.0);
    assert(seq![p].last() == p);
    assert(append_parents(placed.0, seq![p]) == placed.0);
    lemma_trim_wf(placed.0);
    assert(trim(placed.0) == placed.0);
}

/// A linear history of any length leaves exactly one active lane: the one that waits for
/// the parent of its last commit.
pub proof fn lemma_linear_history(ids: Seq<Oid>)
    requires
        ids.len() >= 2,
    ensures
        merge_run(Seq::empty(), chain(ids)) == seq![Some(ids.last())],
        merge_run(Seq::empty(), chain(ids)).len() == 1,
    decreases ids.len(),
{
    let cs = chain(ids);
    assert(cs.last() == (ids[ids.len() - 2], seq![ids.last()]));
    if ids.len() == 2 {
        assert(cs.drop_last() =~= Seq::<(Oid, Seq<Oid>)>::empty());
        assert(merge_run(Seq::empty(), cs.drop_last()) == Seq::<Option<Oid>>::empty());
        lemma_chain_step(Seq::empty(), ids[0], ids[1]);
    } else {
        let shorter = ids.drop_last();
        lemma_linear_history(shorter);
        assert(cs.drop_last() =~= chain(shorter));
        assert(shorter.last() == ids[ids.len() - 2]);
        lemma_chain_step(seq![Some(shorter.last())], ids[ids.len() - 2], ids.last());
    }
    assert(seq![Some(ids.last())].len() == 1);
}

/// Parents that no slot waits for, after a first parent that one does, each open a lane at
/// the end, in order.
pub proof fn lemma_append_fresh(lanes: Seq<Option<Oid>>, parents: Seq<Oid>)
    requires
        parents.len() >= 1,
        holds(lanes, parents[0]),
        forall|i: int| 1 <= i < parents.len() ==> !holds(lanes, #[trigger] parents[i]),
        parents.no_duplicates(),
    ensures
        append_parents(lanes, parents) =~= lanes + parents.drop_first().map_values(
            |p: Oid| Some(p),
        ),
    decreases parents.len(),
{
    if parents.len() == 1 {
        assert(parents.drop_last() =~= Seq::<Oid>::empty());
        assert(append_parents(lanes, Seq::<Oid>::empty()) == lanes);
        assert(parents.last() == parents[0]);
        assert(parents.drop_first() =~= Seq::<Oid>::empty());
    } else {
        let shorter = parents.drop_last();
        assert(shorter[0] == parents[0]);
        assert forall|i: int| 1 <= i < shorter.len() implies !holds(lanes, #[trigger] shorter[i]) by {
            assert(shorter[i] == parents[i]);
        }
        assert(shorter.no_duplicates()) by {
            assert forall|a: int, b: int| 0 <= a < shorter.len() && 0 <= b < shorter.len() && a != b
                implies shorter[a] != shorter[b] by {
                assert(shorter[a] == parents[a] && shorter[b] == parents[b]);
            }
        }
        lemma_append_fresh(lanes, shorter);
        let before = append_parents(lanes, shorter);
        let tail = shorter.drop_first().map_values(|q: Oid| Some(q));
        assert(before =~= lanes + tail);
        let p = parents.last();
        assert(!holds(lanes, p));
        if holds(before, p) {
            let j = choose|j: int| 0 <= j < before.len() && before[j] == Some(p);
            if j >= lanes.len() {
                assert(tail[j - lanes.len()] == Some(p));
                assert(shorter.drop_first()[j - lanes.len()] == p);
                assert(parents[j - lanes.len() + 1] == p);
                assert(parents[parents.len() - 1] == p);
            } else {
                assert(lanes[j] == Some(p));
            }
        }
        assert(!holds(before, p));
        assert(append_parents(lanes, parents) == before.push(Some(p)));
        assert(parents.drop_first().map_values(|q: Oid| Some(q)) =~= tail.push(Some(p)));
    }
}

/// A commit that waits in slot `i` and opens lanes for its `k` fresh parents: the first
/// parent takes slot `i`, the others follow at the end.
pub proof fn lemma_split(lanes: Seq<Option<Oid>>, c: Oid, parents: Seq<Oid>, i: int)
    requires
        lanes_wf(lanes),
        0 <= i < lanes.len(),
        lanes[i] == Some(c),
        parents.len() >= 2,
        parents.no_duplicates(),
        forall|j: int| 0 <= j < parents.len() ==> !holds(lanes, #[trigger] parents[j]),
    ensures
        merge_assign(lanes, c, parents).0 =~= lanes.update(i, Some(parents[0]))
            + parents.drop_first().map_values(|p: Oid| Some(p)),
        merge_assign(lanes, c, parents).1 == i,
{
    assert forall|j: int| 0 <= j < i implies lanes[j] != Some(c) by {
        assert(lanes[i] is Some);
    }
    lemma_first_at(lanes, Some(c), i);
    let freed = release_commit(lanes, c);
    assert(freed == lanes.update(i, None));
    let m = parents.map_values(|q: Oid| holds(freed, q));
    assert forall|j: int| 0 <= j < parents.len() implies !m[j] by {
        if holds(freed, parents[j]) {
            let t = choose|t: int| 0 <= t < freed.len() && freed[t] == Some(parents[j]);
            assert(lanes[t] == Some(parents[j]));
        }
    }
    m.index_of_first_ensures(true);
    let placed = lanes.update(i, Some(parents[0]));
    assert(hand_on(freed, i, parents).0 =~= placed);
    assert(placed[i] == Some(parents[0]));
    assert(holds(placed, parents[0]));
    assert forall|j: int| 1 <= j < parents.len() implies !holds(placed, #[trigger] parents[j]) by {
        if holds(placed, parents[j]) {
            let t = choose|t: int| 0 <= t < placed.len() && placed[t] == Some(parents[j]);
            if t == i {
                assert(parents[0] == parents[j]);
            } else {
                assert(lanes[t] == Some(parents[j]));
            }
        }
    }
    lemma_append_fresh(placed, parents);
    let out = append_parents(placed, parents);
    assert(out.last() == Some(parents.last()));
}

/// A commit that already waits in a lane and has `k >= 2` parents, none of them awaited yet,
/// leaves `k - 1` more active lanes than before.
pub proof fn lemma_split_opens_lanes(lanes: Seq<Option<Oid>>, c: Oid, parents: Seq<Oid>)
    requires
        lanes_wf(lanes),
        holds(lanes, c),
        parents.len() >= 2,
        parents.no_duplicates(),
        forall|j: int| 0 <= j < parents.len() ==> !holds(lanes, #[trigger] parents[j]),
    ensures
        merge_assign(lanes, c, parents).0.len() == lanes.len() + parents.len() - 1,
{
    let i = choose|i: int| 0 <= i < lanes.len() && lanes[i] == Some(c);
    lemma_split(lanes, c, parents, i);
}

/// A commit `s` that splits into `branches`, then each branch, in the order of the parents,
/// merging into the one commit `m`.
pub open spec fn split_and_merge(s: Oid, branches: Seq<Oid>, m: Oid) -> Seq<(Oid, Seq<Oid>)> {
    seq![(s, branches)] + branches.map_values(|b: Oid| (b, seq![m]))
}

/// A branch `b` in the slot right after `prefix` merging into `m`, which `prefix` awaits
/// first at `q`: that slot of `m` goes, and `m` takes the branch's place, one slot down.
pub proof fn lemma_merge_into(
    prefix: Seq<Option<Oid>>,
    q: int,
    b: Oid,
    rest: Seq<Option<Oid>>,
    m: Oid,
)
    requires
        0 <= q < prefix.len(),
        prefix[q] == Some(m),
        forall|t: int| 0 <= t < q ==> prefix[t] != Some(m),
        !holds(prefix, b),
        m != b,
        forall|t: int| 0 <= t < rest.len() ==> (#[trigger] rest[t]) is Some,
    ensures
        merge_assign(prefix + seq![Some(b)] + rest, b, seq![m]).0 =~= prefix.remove(q) + seq![
            Some(m),
        ] + rest,
{
    let n = prefix.len() as int;
    let table = prefix + seq![Some(b)] + rest;
    assert forall|t: int| 0 <= t < n implies table[t] != Some(b) by {
        assert(table[t] == prefix[t]);
    }
    assert(table[n] == Some(b));
    lemma_first_at(table, Some(b), n);
    let freed = release_commit(table, b);
    assert(freed =~= prefix + seq![None] + rest);
    assert(freed[q] == Some(m));
    assert(holds(freed, m));
    let mm = seq![m].map_values(|x: Oid| holds(freed, x));
    assert(mm[0]);
    lemma_first_at(mm, true, 0);
    lemma_first_at(freed, Some(m), q);
    let placed = freed.remove(q).update(n - 1, Some(m));
    assert(hand_on(freed, n, seq![m]).0 == placed);
    assert(placed =~= prefix.remove(q) + seq![Some(m)] + rest);
    assert(placed[n - 1] == Some(m));
    assert(holds(placed, m));
    assert(seq![m].drop_last() =~= Seq::<Oid>::empty());
    assert(append_parents(placed, Seq::<Oid>::empty()) == placed);
    assert(seq![m].last() == m);
    assert(append_parents(placed, seq![m]) == placed);
    if rest.len() > 0 {
        assert(placed.last() == rest.last());
    }
    assert(placed.last() is Some);
    assert(trim(placed) == placed);
}

/// The table once the first `j` branches have merged into `m`.
pub open spec fn after_merges(
    lanes: Seq<Option<Oid>>,
    i: int,
    branches: Seq<Oid>,
    m: Oid,
    j: int,
) -> Seq<Option<Oid>> {
    let waiting = branches.subrange(j, branches.len() as int).map_values(|b: Oid| Some(b));
    if j == 1 {
        lanes.update(i, Some(m)) + waiting
    } else {
        lanes.remove(i) + seq![Some(m)] + waiting
    }
}

proof fn lemma_merges(lanes: Seq<Option<Oid>>, s: Oid, branches: Seq<Oid>, m: Oid, i: int, j: int)
    requires
        lanes_wf(lanes),
        0 <= i < lanes.len(),
        lanes[i] == Some(s),
        branches.len() >= 2,
        branches.no_duplicates(),
        forall|t: int| 0 <= t < branches.len() ==> !holds(lanes, #[trigger] branches[t]),
        !holds(lanes, m),
        !branches.contains(m),
        1 <= j <= branches.len(),
    ensures
        merge_run(lanes, split_and_merge(s, branches, m).subrange(0, j + 1)) =~= after_merges(
            lanes,
            i,
            branches,
            m,
            j,
        ),
    decreases j,
{
    let sm = split_and_merge(s, branches, m);
    let k = branches.len() as int;
    let n = lanes.len() as int;
    assert(sm.subrange(0, j + 1).drop_last() =~= sm.subrange(0, j));
    assert(sm[j] == (branches[j - 1], seq![m]));
    assert(forall|t: int| 0 <= t < lanes.len() ==> lanes[t] != Some(m));
    if j == 1 {
        assert(sm.subrange(0, 1).drop_last() =~= Seq::<(Oid, Seq<Oid>)>::empty());
        assert(sm[0] == (s, branches));
        lemma_split(lanes, s, branches, i);
        let rest0 = branches.drop_first().map_values(|p: Oid| Some(p));
        let t0 = lanes.update(i, Some(branches[0])) + rest0;
        assert(merge_run(lanes, sm.subrange(0, 1).drop_last()) == lanes);
        assert(sm.subrange(0, 1).last() == (s, branches));
        assert(merge_assign(lanes, s, branches).0 == t0);
        assert(merge_run(lanes, sm.subrange(0, 1)) == t0);
        let b = branches[0];
        assert forall|t: int| 0 <= t < i implies t0[t] != Some(b) by {
            assert(t0[t] == lanes[t]);
        }
        lemma_first_at(t0, Some(b), i);
        let freed = release_commit(t0, b);
        assert(freed =~= lanes.update(i, None) + rest0);
        assert(!holds(freed, m)) by {
            if holds(freed, m) {
                let t = choose|t: int| 0 <= t < freed.len() && freed[t] == Some(m);
                if t >= n {
                    assert(rest0[t - n] == Some(m));
                    assert(branches[t - n + 1] == m);
                } else {
                    assert(lanes[t] == Some(m));
                }
            }
        }
        let mm = seq![m].map_values(|x: Oid| holds(freed, x));
        assert(mm =~= seq![false]);
        mm.index_of_first_ensures(true);
        let placed = freed.update(i, Some(m));
        assert(hand_on(freed, i, seq![m]).0 == placed);
        assert(placed =~= lanes.update(i, Some(m)) + rest0);
        assert(placed[i] == Some(m));
        assert(seq![m].drop_last() =~= Seq::<Oid>::empty());
        assert(append_parents(placed, Seq::<Oid>::empty()) == placed);
        assert(seq![m].last() == m);
        assert(append_parents(placed, seq![m]) == placed);
        assert(placed.last() == rest0.last());
        assert(trim(placed) == placed);
        assert(rest0 =~= branches.subrange(1, k).map_values(|b: Oid| Some(b)));
    } else {
        lemma_merges(lanes, s, branches, m, i, j - 1);
        let b = branches[j - 1];
        let rest = branches.subrange(j, k).map_values(|x: Oid| Some(x));
        let prefix = if j - 1 == 1 {
            lanes.update(i, Some(m))
        } else {
            lanes.remove(i) + seq![Some(m)]
        };
        let q = if j - 1 == 1 {
            i
        } else {
            n - 1
        };
        assert(after_merges(lanes, i, branches, m, j - 1) =~= prefix + seq![Some(b)] + rest);
        assert forall|t: int| 0 <= t < q implies prefix[t] != Some(m) by {
            if j - 1 == 1 {
                assert(prefix[t] == lanes[t]);
            } else {
                assert(prefix[t] == lanes.remove(i)[t]);
                if t < i {
                    assert(lanes.remove(i)[t] == lanes[t]);
                } else {
                    assert(lanes.remove(i)[t] == lanes[t + 1]);
                }
            }
        }
        assert(!holds(prefix, b)) by {
            if holds(prefix, b) {
                let t = choose|t: int| 0 <= t < prefix.len() && prefix[t] == Some(b);
                if j - 1 == 1 {
                    if t != i {
                        assert(lanes[t] == Some(b));
                    }
                } else if t < n - 1 {
                    if t < i {
                        assert(lanes[t] == Some(b));
                    } else {
                        assert(lanes[t + 1] == Some(b));
                    }
                }
                assert(branches[j - 1] == b);
            }
        }
        assert(m != b) by {
            if m == b {
                assert(branches[j - 1] == m);
            }
        }
        lemma_merge_into(prefix, q, b, rest, m);
        assert(prefix.remove(q) =~= lanes.remove(i));
    }
}

/// A split into `k >= 2` fresh branches that all merge back, in the order of the parents,
/// into one commit no lane waited for leaves as many active lanes as before the split.
pub proof fn lemma_split_then_merge(lanes: Seq<Option<Oid>>, s: Oid, branches: Seq<Oid>, m: Oid)
    requires
        lanes_wf(lanes),
        holds(lanes, s),
        branches.len() >= 2,
        branches.no_duplicates(),
        forall|t: int| 0 <= t < branches.len() ==> !holds(lanes, #[trigger] branches[t]),
        !holds(lanes, m),
        !branches.contains(m),
    ensures
        merge_run(lanes, split_and_merge(s, branches, m)).len() == lanes.len(),
{
    let i = choose|i: int| 0 <= i < lanes.len() && lanes[i] == Some(s);
    let k = branches.len() as int;
    let sm = split_and_merge(s, branches, m);
    lemma_merges(lanes, s, branches, m, i, k);
    assert(sm.subrange(0, k + 1) =~= sm);
}

/// A lane table that collapses a merge: a parent already awaited in another lane moves
/// into the commit's lane instead of keeping two lanes open.
#[derive(Debug, Clone)]
pub struct LaneManager {
    lanes: Vec<Option<Oid>>,
}

impl LaneManager {
    pub closed spec fn view(&self) -> Seq<Option<Oid>> {
        self.lanes@
    }

    pub closed spec fn wf(&self) -> bool {
        lanes_wf(self.lanes@)
    }

    pub fn new() -> (r: LaneManager)
        ensures
            r@ == Seq::<Option<Oid>>::empty(),
            r.wf(),
    {
        LaneManager { lanes: Vec::new() }
    }

    pub fn get_lanes(&self) -> (r: &[Option<Oid>])
        ensures
            r@ == self@,
    {
        self.lanes.as_slice()
    }

    /// Assigns the commit to a lane, hands the lane on to a parent, opens lanes for the other
    /// parents, and returns the lane the commit is drawn in.
    pub fn assign_commit(&mut self, commit_oid: &Oid, parent_oids: &[Oid]) -> (r: usize)
        requires
            old(self).wf(),
        ensures
            r == merge_assign(old(self)@, *commit_oid, parent_oids@).1,
            final(self)@ == merge_assign(old(self)@, *commit_oid, parent_oids@).0,
            final(self).wf(),
            lanes_wf(final(self)@),
    {
        proof {
            self.lanes@.index_of_first_ensures(Some(*commit_oid));
        }
        let mut lane = match find_slot(&self.lanes, *commit_oid) {
            Some(i) => i,
            None => {
                self.lanes.push(None);
                self.lanes.len() - 1
            },
        };
        self.lanes.set(lane, None);
        let ghost freed = self.lanes@;
        let ghost lane0 = lane as int;
        proof {
            lemma_release_commit(old(self)@, *commit_oid);
            assert(freed =~= release_commit(old(self)@, *commit_oid));
            lemma_hand_on(freed, lane0, parent_oids@);
        }

        match first_held_parent(&self.lanes, parent_oids) {
            Some(j) => {
                proof {
                    let m = parent_oids@.map_values(|p: Oid| holds(freed, p));
                    m.index_of_first_ensures(true);
                    assert(m[j as int]);
                    freed.index_of_first_ensures(Some(parent_oids@[j as int]));
                }
                let parent = parent_oids[j];
                let s = find_slot(&self.lanes, parent).unwrap();
                if s < lane {
                    self.lanes.remove(s);
                    lane = lane - 1;
                } else if s > lane {
                    self.lanes.remove(s);
                }
                self.lanes.set(lane, Some(parent));
            },
            None => {
                if parent_oids.len() > 0 {
                    self.lanes.set(lane, Some(parent_oids[0]));
                }
            },
        }
        let ghost placed = self.lanes@;
        proof {
            assert(placed =~= hand_on(freed, lane0, parent_oids@).0);
        }

        let mut i: usize = 0;
        while i < parent_oids.len()
            invariant
                i <= parent_oids@.len(),
                self.lanes@ == append_parents(placed, parent_oids@.subrange(0, i as int)),
            decreases parent_oids@.len() - i,
        {
            let parent = parent_oids[i];
            proof {
                assert(parent_oids@.subrange(0, i + 1).drop_last() =~= parent_oids@.subrange(
                    0,
                    i as int,
                ));
                self.lanes@.index_of_first_ensures(Some(parent));
            }
            if find_slot(&self.lanes, parent).is_none() {
                self.lanes.push(Some(parent));
            }
            i = i + 1;
        }
        proof {
            assert(parent_oids@.subrange(0, parent_oids@.len() as int) =~= parent_oids@);
            lemma_append_parents_unique(placed, parent_oids@);
            lemma_trim_wf(self.lanes@);
        }
        trim_lanes(&mut self.lanes);
        lane
    }
}

} // verus!
