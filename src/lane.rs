use vstd::prelude::*;

use crate::oid::Oid;

verus! {

/// No id waits in two slots of a lane table.
pub open spec fn unique_slots(lanes: Seq<Option<Oid>>) -> bool {
    forall|i: int, j: int|
        0 <= i < lanes.len() && 0 <= j < lanes.len() && i != j && (#[trigger] lanes[i]) is Some
            ==> lanes[i] != #[trigger] lanes[j]
}

/// The table ends in an occupied slot (or is empty).
pub open spec fn trimmed(lanes: Seq<Option<Oid>>) -> bool {
    lanes.len() == 0 || lanes.last() is Some
}

/// What every lane table keeps between two assignments.
pub open spec fn lanes_wf(lanes: Seq<Option<Oid>>) -> bool {
    unique_slots(lanes) && trimmed(lanes)
}

/// The table with its trailing free slots removed.
pub open spec fn trim(lanes: Seq<Option<Oid>>) -> Seq<Option<Oid>>
    decreases lanes.len(),
{
    if lanes.len() > 0 && lanes.last() is None {
        trim(lanes.drop_last())
    } else {
        lanes
    }
}

/// Whether some slot waits for `id`.
pub open spec fn holds(lanes: Seq<Option<Oid>>, id: Oid) -> bool {
    lanes.contains(Some(id))
}

/// The table after each parent that no slot waits for yet gets a new slot at the end,
/// taken in order.
pub open spec fn append_parents(lanes: Seq<Option<Oid>>, parents: Seq<Oid>) -> Seq<Option<Oid>>
    decreases parents.len(),
{
    if parents.len() == 0 {
        lanes
    } else {
        let before = append_parents(lanes, parents.drop_last());
        if holds(before, parents.last()) {
            before
        } else {
            before.push(Some(parents.last()))
        }
    }
}

/// Indices of the free slots, in increasing order.
pub open spec fn free_slots(lanes: Seq<Option<Oid>>) -> Seq<usize>
    decreases lanes.len(),
{
    if lanes.len() == 0 {
        Seq::empty()
    } else {
        let before = free_slots(lanes.drop_last());
        if lanes.last() is None {
            before.push((lanes.len() - 1) as usize)
        } else {
            before
        }
    }
}

/// One parent placed by the filling policy: skipped when a slot waits for it already,
/// else put in the free slot of highest index, else in a new slot at the end.
pub open spec fn fill_one(state: (Seq<Option<Oid>>, Seq<usize>), parent: Oid) -> (
    Seq<Option<Oid>>,
    Seq<usize>,
) {
    let (lanes, free) = state;
    if holds(lanes, parent) {
        (lanes, free)
    } else if free.len() > 0 {
        (lanes.update(free.last() as int, Some(parent)), free.drop_last())
    } else {
        (lanes.push(Some(parent)), free)
    }
}

/// The parents placed one after the other by `fill_one`.
pub open spec fn fill_parents(
    lanes: Seq<Option<Oid>>,
    free: Seq<usize>,
    parents: Seq<Oid>,
) -> (Seq<Option<Oid>>, Seq<usize>)
    decreases parents.len(),
{
    if parents.len() == 0 {
        (lanes, free)
    } else {
        fill_one(fill_parents(lanes, free, parents.drop_last()), parents.last())
    }
}

/// The slot a commit is drawn in: the first one that waits for it, else a new one at the end.
pub open spec fn commit_slot(lanes: Seq<Option<Oid>>, id: Oid) -> int {
    match lanes.index_of_first(Some(id)) {
        Some(i) => i,
        None => lanes.len() as int,
    }
}

/// The table with the commit's slot made free (added at the end when none waited for it).
pub open spec fn release_commit(lanes: Seq<Option<Oid>>, id: Oid) -> Seq<Option<Oid>> {
    match lanes.index_of_first(Some(id)) {
        Some(i) => lanes.update(i, None),
        None => lanes.push(None),
    }
}

/// Assignment by filling free slots: the commit's slot is freed, then each parent not yet
/// awaited takes the free slot of highest index or a new one, and trailing free slots go.
pub open spec fn fill_assign(lanes: Seq<Option<Oid>>, id: Oid, parents: Seq<Oid>) -> Seq<
    Option<Oid>,
> {
    let freed = release_commit(lanes, id);
    trim(fill_parents(freed, free_slots(freed), parents).0)
}

/// A straight line of history: commit `ids[i]` has the single parent `ids[i + 1]`.
pub open spec fn chain(ids: Seq<Oid>) -> Seq<(Oid, Seq<Oid>)> {
    Seq::new((ids.len() - 1) as nat, |i: int| (ids[i], seq![ids[i + 1]]))
}

/// The table after each commit of `commits` is assigned in turn by filling free slots.
pub open spec fn fill_run(lanes: Seq<Option<Oid>>, commits: Seq<(Oid, Seq<Oid>)>) -> Seq<
    Option<Oid>,
>
    decreases commits.len(),
{
    if commits.len() == 0 {
        lanes
    } else {
        let before = fill_run(lanes, commits.drop_last());
        fill_assign(before, commits.last().0, commits.last().1)
    }
}

/// A commit alone on the table, or on an empty one, leaves its one parent alone on it.
pub proof fn lemma_fill_chain_step(lanes: Seq<Option<Oid>>, c: Oid, p: Oid)
    requires
        lanes == seq![Some(c)] || lanes.len() == 0,
    ensures
        fill_assign(lanes, c, seq![p]) == seq![Some(p)],
{
    lanes.index_of_first_ensures(Some(c));
    if lanes.len() == 1 {
        let k = lanes.index_of_first(Some(c))->0;
        assert(lanes[0] == Some(c));
        assert(k == 0);
    }
    let freed = release_commit(lanes, c);
    assert(freed =~= seq![None::<Oid>]);
    assert(freed.drop_last() =~= Seq::<Option<Oid>>::empty());
    assert(free_slots(freed.drop_last()) == Seq::<usize>::empty());
    assert(freed.last() is None);
    assert(free_slots(freed) =~= seq![0usize]);
    assert(!holds(freed, p));
    assert(seq![p].drop_last() =~= Seq::<Oid>::empty());
    assert(seq![p].last() == p);
    let free = free_slots(freed);
    assert(fill_parents(freed, free, Seq::<Oid>::empty()) == (freed, free));
    assert(fill_parents(freed, free, seq![p]) == fill_one((freed, free), p));
    assert(free.last() == 0usize);
    let placed = fill_parents(freed, free, seq![p]).0;
    assert(placed =~= seq![Some(p)]);
    assert(trim(placed) == placed);
}

/// A linear history of any length leaves exactly one active lane when free slots are
/// filled too: the one that waits for the parent of its last commit.
pub proof fn lemma_fill_linear_history(ids: Seq<Oid>)
    requires
        ids.len() >= 2,
    ensures
        fill_run(Seq::empty(), chain(ids)) == seq![Some(ids.last())],
        fill_run(Seq::empty(), chain(ids)).len() == 1,
    decreases ids.len(),
{
    let cs = chain(ids);
    assert(cs.last() == (ids[ids.len() - 2], seq![ids.last()]));
    if ids.len() == 2 {
        assert(cs.drop_last() =~= Seq::<(Oid, Seq<Oid>)>::empty());
        assert(fill_run(Seq::empty(), cs.drop_last()) == Seq::<Option<Oid>>::empty());
        lemma_fill_chain_step(Seq::empty(), ids[0], ids[1]);
    } else {
        let shorter = ids.drop_last();
        lemma_fill_linear_history(shorter);
        assert(cs.drop_last() =~= chain(shorter));
        assert(shorter.last() == ids[ids.len() - 2]);
        lemma_fill_chain_step(seq![Some(shorter.last())], ids[ids.len() - 2], ids.last());
    }
    assert(seq![Some(ids.last())].len() == 1);
}

/// Trimming keeps a prefix, drops only free slots, and leaves the table trimmed.
pub proof fn lemma_trim(lanes: Seq<Option<Oid>>)
    ensures
        trimmed(trim(lanes)),
        trim(lanes).len() <= lanes.len(),
        trim(lanes) =~= lanes.subrange(0, trim(lanes).len() as int),
        forall|i: int| trim(lanes).len() <= i < lanes.len() ==> lanes[i] is None,
    decreases lanes.len(),
{
    if lanes.len() > 0 && lanes.last() is None {
        let d = lanes.drop_last();
        lemma_trim(d);
        assert forall|i: int| trim(lanes).len() <= i < lanes.len() implies lanes[i] is None by {
            if i < d.len() {
                assert(lanes[i] == d[i]);
            }
        }
    }
}

/// A prefix of a table with unique slots has unique slots.
pub proof fn lemma_unique_prefix(lanes: Seq<Option<Oid>>, n: int)
    requires
        unique_slots(lanes),
        0 <= n <= lanes.len(),
    ensures
        unique_slots(lanes.subrange(0, n)),
{
    let p = lanes.subrange(0, n);
    assert forall|i: int, j: int|
        0 <= i < p.len() && 0 <= j < p.len() && i != j && (#[trigger] p[i]) is Some implies p[i]
        != #[trigger] p[j] by {
        assert(p[i] == lanes[i] && p[j] == lanes[j]);
    }
}

/// Trimming a table with unique slots makes it well formed.
pub proof fn lemma_trim_wf(lanes: Seq<Option<Oid>>)
    requires
        unique_slots(lanes),
    ensures
        lanes_wf(trim(lanes)),
{
    lemma_trim(lanes);
    lemma_unique_prefix(lanes, trim(lanes).len() as int);
}

/// Writing an id that no slot waits for keeps the slots unique.
pub proof fn lemma_unique_update(lanes: Seq<Option<Oid>>, k: int, v: Option<Oid>)
    requires
        unique_slots(lanes),
        0 <= k < lanes.len(),
        v is None || !holds(lanes, v->0),
    ensures
        unique_slots(lanes.update(k, v)),
{
    let u = lanes.update(k, v);
    assert forall|i: int, j: int|
        0 <= i < u.len() && 0 <= j < u.len() && i != j && (#[trigger] u[i]) is Some implies u[i]
        != #[trigger] u[j] by {
        if i == k {
            assert(!holds(lanes, v->0));
            if u[i] == u[j] {
                assert(lanes[j] == Some(v->0));
            }
        } else if j == k {
            if u[i] == u[j] {
                assert(lanes[i] == Some(v->0));
            }
        } else {
            assert(u[i] == lanes[i] && u[j] == lanes[j]);
        }
    }
}

/// Appending a free slot, or an id that no slot waits for, keeps the slots unique.
pub proof fn lemma_unique_push(lanes: Seq<Option<Oid>>, v: Option<Oid>)
    requires
        unique_slots(lanes),
        v is None || !holds(lanes, v->0),
    ensures
        unique_slots(lanes.push(v)),
{
    let u = lanes.push(v);
    assert forall|i: int, j: int|
        0 <= i < u.len() && 0 <= j < u.len() && i != j && (#[trigger] u[i]) is Some implies u[i]
        != #[trigger] u[j] by {
        if i == lanes.len() {
            if u[i] == u[j] {
                assert(lanes[j] == Some(v->0));
            }
        } else if j == lanes.len() {
            if u[i] == u[j] {
                assert(lanes[i] == Some(v->0));
            }
        } else {
            assert(u[i] == lanes[i] && u[j] == lanes[j]);
        }
    }
}

/// Appending parents keeps the slots unique and the existing slots in place.
pub proof fn lemma_append_parents_unique(lanes: Seq<Option<Oid>>, parents: Seq<Oid>)
    requires
        unique_slots(lanes),
    ensures
        unique_slots(append_parents(lanes, parents)),
        append_parents(lanes, parents).len() >= lanes.len(),
        forall|i: int| 0 <= i < lanes.len() ==> #[trigger] append_parents(lanes, parents)[i] == lanes[i],
    decreases parents.len(),
{
    if parents.len() > 0 {
        lemma_append_parents_unique(lanes, parents.drop_last());
        let before = append_parents(lanes, parents.drop_last());
        if !holds(before, parents.last()) {
            lemma_unique_push(before, Some(parents.last()));
        }
    }
}

/// Filling parents keeps the slots unique, never shrinks the table, and keeps every
/// remaining free index inside it.
pub proof fn lemma_fill_parents(lanes: Seq<Option<Oid>>, free: Seq<usize>, parents: Seq<Oid>)
    requires
        unique_slots(lanes),
        forall|k: int| 0 <= k < free.len() ==> free[k] < lanes.len(),
    ensures
        unique_slots(fill_parents(lanes, free, parents).0),
        fill_parents(lanes, free, parents).0.len() >= lanes.len(),
        forall|k: int|
            0 <= k < fill_parents(lanes, free, parents).1.len() ==> fill_parents(
                lanes,
                free,
                parents,
            ).1[k] < fill_parents(lanes, free, parents).0.len(),
    decreases parents.len(),
{
    if parents.len() > 0 {
        lemma_fill_parents(lanes, free, parents.drop_last());
        let (l, f) = fill_parents(lanes, free, parents.drop_last());
        let p = parents.last();
        if !holds(l, p) {
            if f.len() > 0 {
                lemma_unique_update(l, f.last() as int, Some(p));
            } else {
                lemma_unique_push(l, Some(p));
            }
        }
    }
}

/// Every free index lies inside the table.
pub proof fn lemma_free_slots(lanes: Seq<Option<Oid>>)
    ensures
        forall|k: int| 0 <= k < free_slots(lanes).len() ==> free_slots(lanes)[k] < lanes.len(),
    decreases lanes.len(),
{
    if lanes.len() > 0 {
        lemma_free_slots(lanes.drop_last());
        let before = free_slots(lanes.drop_last());
        assert forall|k: int| 0 <= k < free_slots(lanes).len() implies free_slots(lanes)[k]
            < lanes.len() by {
            if k < before.len() {
                assert(free_slots(lanes)[k] == before[k]);
            }
        }
    }
}

/// Freeing the commit's slot keeps the slots unique; that slot is free and nothing waits
/// for the commit any more.
pub proof fn lemma_release_commit(lanes: Seq<Option<Oid>>, id: Oid)
    requires
        unique_slots(lanes),
    ensures
        unique_slots(release_commit(lanes, id)),
        0 <= commit_slot(lanes, id) < release_commit(lanes, id).len(),
        release_commit(lanes, id)[commit_slot(lanes, id)] is None,
        !holds(release_commit(lanes, id), id),
{
    lanes.index_of_first_ensures(Some(id));
    let r = release_commit(lanes, id);
    match lanes.index_of_first(Some(id)) {
        Some(i) => {
            lemma_unique_update(lanes, i, None);
            if holds(r, id) {
                let j = choose|j: int| 0 <= j < r.len() && r[j] == Some(id);
                assert(lanes[j] == lanes[i]);
            }
        },
        None => {
            lemma_unique_push(lanes, None);
            if holds(r, id) {
                let j = choose|j: int| 0 <= j < r.len() && r[j] == Some(id);
                assert(lanes[j] == Some(id));
            }
        },
    }
}

/// The first slot that waits for `id`, as `index_of_first` gives it.
pub fn find_slot(lanes: &Vec<Option<Oid>>, id: Oid) -> (r: Option<usize>)
    ensures
        match r {
            Some(i) => lanes@.index_of_first(Some(id)) == Some(i as int),
            None => lanes@.index_of_first(Some(id)) is None,
        },
{
    let mut i: usize = 0;
    while i < lanes.len()
        invariant
            i <= lanes@.len(),
            forall|j: int| 0 <= j < i ==> lanes@[j] != Some(id),
        decreases lanes@.len() - i,
    {
        let hit = match lanes[i] {
            Some(x) => x == id,
            None => false,
        };
        if hit {
            proof {
                assert(lanes@[i as int] == Some(id));
                lanes@.index_of_first_ensures(Some(id));
                let k = lanes@.index_of_first(Some(id))->0;
                assert(lanes@[k] == Some(id));
                if k < i {
                    assert(lanes@[k] != Some(id));
                }
                if k > i {
                    assert(lanes@[i as int] != Some(id));
                }
            }
            return Some(i);
        }
        i = i + 1;
    }
    proof {
        lanes@.index_of_first_ensures(Some(id));
    }
    None
}

/// Drops the trailing free slots.
pub fn trim_lanes(lanes: &mut Vec<Option<Oid>>)
    ensures
        final(lanes)@ == trim(old(lanes)@),
{
    while lanes.len() > 0 && lanes[lanes.len() - 1].is_none()
        invariant
            trim(lanes@) == trim(old(lanes)@),
        decreases lanes@.len(),
    {
        lanes.pop();
    }
}

/// A lane table that hands a parent the free slot of highest index before opening a new one.
#[derive(Debug, Clone)]
pub struct LaneManager {
    lanes: Vec<Option<Oid>>,
}

impl LaneManager {
    pub closed spec fn view(&self) -> Seq<Option<Oid>> {
        self.lanes@
    }

    pub closed spec fn wf(&self) -> bool {
        lanes_wf(self.lanes@)
    }

    pub fn new() -> (r: LaneManager)
        ensures
            r@ == Seq::<Option<Oid>>::empty(),
            r.wf(),
    {
        LaneManager { lanes: Vec::new() }
    }

    pub fn get_lanes(&self) -> (r: &[Option<Oid>])
        ensures
            r@ == self@,
    {
        self.lanes.as_slice()
    }

    /// Assigns the commit to a lane, reserves lanes for its parents, and returns the
    /// commit's lane.
    pub fn assign_commit(&mut self, commit_oid: &Oid, parent_oids: &[Oid]) -> (r: usize)
        requires
            old(self).wf(),
        ensures
            r == commit_slot(old(self)@, *commit_oid),
            final(self)@ == fill_assign(old(self)@, *commit_oid, parent_oids@),
            final(self).wf(),
            lanes_wf(final(self)@),
    {
        proof {
            self.lanes@.index_of_first_ensures(Some(*commit_oid));
        }
        let lane = match find_slot(&self.lanes, *commit_oid) {
            Some(i) => i,
            None => {
                self.lanes.push(None);
                self.lanes.len() - 1
            },
        };
        self.lanes.set(lane, None);
        let ghost freed = self.lanes@;
        proof {
            lemma_release_commit(old(self)@, *commit_oid);
            assert(freed =~= release_commit(old(self)@, *commit_oid));
        }

        let mut none_lane: Vec<usize> = Vec::new();
        let mut k: usize = 0;
        while k < self.lanes.len()
            invariant
                self.lanes@ == freed,
                k <= freed.len(),
                none_lane@ == free_slots(freed.subrange(0, k as int)),
            decreases freed.len() - k,
        {
            proof {
                assert(freed.subrange(0, k + 1).drop_last() =~= freed.subrange(0, k as int));
            }
            if self.lanes[k].is_none() {
                none_lane.push(k);
            }
            k = k + 1;
        }
        proof {
            assert(freed.subrange(0, freed.len() as int) =~= freed);
            lemma_free_slots(freed);
        }
        let ghost free0 = free_slots(freed);

        let mut i: usize = 0;
        while i < parent_oids.len()
            invariant
                i <= parent_oids@.len(),
                (self.lanes@, none_lane@) == fill_parents(
                    freed,
                    free_slots(freed),
                    parent_oids@.subrange(0, i as int),
                ),
                unique_slots(self.lanes@),
                unique_slots(freed),
                free0 == free_slots(freed),
                forall|j: int| 0 <= j < free0.len() ==> free0[j] < freed.len(),
                forall|j: int| 0 <= j < none_lane@.len() ==> none_lane@[j] < self.lanes@.len(),
            decreases parent_oids@.len() - i,
        {
            let parent = parent_oids[i];
            proof {
                assert(parent_oids@.subrange(0, i + 1).drop_last() =~= parent_oids@.subrange(
                    0,
                    i as int,
                ));
                lemma_fill_parents(freed, free_slots(freed), parent_oids@.subrange(0, i + 1));
            }
            if find_slot(&self.lanes, parent).is_none() {
                proof {
                    self.lanes@.index_of_first_ensures(Some(parent));
                }
                match none_lane.pop() {
                    Some(position) => {
                        self.lanes.set(position, Some(parent));
                    },
                    None => {
                        self.lanes.push(Some(parent));
                    },
                }
            } else {
                proof {
                    self.lanes@.index_of_first_ensures(Some(parent));
                }
            }
            i = i + 1;
        }
        proof {
            assert(parent_oids@.subrange(0, parent_oids@.len() as int) =~= parent_oids@);
            lemma_trim_wf(self.lanes@);
        }
        trim_lanes(&mut self.lanes);
        lane
    }
}

} // verus!
