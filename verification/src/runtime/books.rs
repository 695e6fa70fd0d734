//! Small tables that the driver keeps: trajectories in order of arrival, and
//! notes on steps.
use vstd::prelude::*;

use crate::ids::{StepId, TrajectoryId};

verus! {

/// Trajectories, each once, in the order in which they came.
#[derive(Debug)]
pub struct IdSet {
    ids: Vec<TrajectoryId>,
}

impl View for IdSet {
    type V = Seq<TrajectoryId>;

    closed spec fn view(&self) -> Seq<TrajectoryId> {
        self.ids@
    }
}

/// `s` with `id` in it: at the end where it is new.
pub open spec fn joined(s: Seq<TrajectoryId>, id: TrajectoryId) -> Seq<TrajectoryId> {
    if s.contains(id) {
        s
    } else {
        s.push(id)
    }
}

/// `s` without `id`; the others keep their order.
pub open spec fn left(s: Seq<TrajectoryId>, id: TrajectoryId) -> Seq<TrajectoryId>
    decreases s.len(),
{
    if s.len() == 0 {
        s
    } else if s.last() == id {
        left(s.drop_last(), id)
    } else {
        left(s.drop_last(), id).push(s.last())
    }
}

/// What is left is what was there, without `id`.
pub proof fn lemma_left(s: Seq<TrajectoryId>, id: TrajectoryId)
    ensures
        forall|x: TrajectoryId| #[trigger] left(s, id).contains(x) <==> s.contains(x) && x != id,
        left(s, id).len() <= s.len(),
    decreases s.len(),
{
    if s.len() > 0 {
        let front = s.drop_last();
        lemma_left(front, id);
        assert forall|x: TrajectoryId| #[trigger] left(s, id).contains(x) == (s.contains(x) && x
            != id) by {
            if s.contains(x) && x != id {
                let i = choose|i: int| 0 <= i < s.len() && s[i] == x;
                if i < front.len() {
                    assert(front[i] == x);
                    assert(left(front, id).contains(x));
                    let j = choose|j: int|
                        0 <= j < left(front, id).len() && left(front, id)[j] == x;
                    assert(left(s, id)[j] == x);
                } else {
                    assert(left(s, id)[left(s, id).len() - 1] == x);
                }
            }
            if left(s, id).contains(x) {
                let j = choose|j: int| 0 <= j < left(s, id).len() && left(s, id)[j] == x;
                if j < left(front, id).len() {
                    assert(left(front, id)[j] == x);
                    assert(left(front, id).contains(x));
                    let i = choose|i: int| 0 <= i < front.len() && front[i] == x;
                    assert(s[i] == x);
                } else {
                    assert(s[s.len() - 1] == x);
                }
            }
        }
    }
}

impl IdSet {
    pub fn new() -> (res: Self)
        ensures
            res@ == Seq::<TrajectoryId>::empty(),
    {
        IdSet { ids: Vec::new() }
    }

    pub fn contains(&self, id: TrajectoryId) -> (res: bool)
        ensures
            res == self@.contains(id),
    {
        let mut i: usize = 0;
        while i < self.ids.len()
            invariant
                i <= self.ids@.len(),
                forall|j: int| 0 <= j < i ==> self.ids@[j] != id,
            decreases self.ids@.len() - i,
        {
            if self.ids[i] == id {
                return true;
            }
            i += 1;
        }
        false
    }

    pub fn insert(&mut self, id: TrajectoryId)
        ensures
            final(self)@ == joined(old(self)@, id),
    {
        if !self.contains(id) {
            self.ids.push(id);
        }
    }

    pub fn remove(&mut self, id: TrajectoryId)
        ensures
            final(self)@ == left(old(self)@, id),
    {
        let mut kept: Vec<TrajectoryId> = Vec::new();
        let mut i: usize = 0;
        assert(self.ids@.take(0) =~= Seq::empty());
        while i < self.ids.len()
            invariant
                i <= self.ids@.len(),
                self.ids@ == old(self)@,
                kept@ == left(self.ids@.take(i as int), id),
            decreases self.ids@.len() - i,
        {
            proof {
                let next = self.ids@.take(i + 1);
                assert(next.drop_last() =~= self.ids@.take(i as int));
            }
            if self.ids[i] != id {
                kept.push(self.ids[i]);
            }
            i += 1;
        }
        assert(self.ids@.take(i as int) =~= self.ids@);
        self.ids = kept;
    }

    pub fn to_vec(&self) -> (res: Vec<TrajectoryId>)
        ensures
            res@ == self@,
    {
        let res = self.ids.clone();
        assert(res@ =~= self.ids@);
        res
    }
}

/// A step of a trajectory.
pub type StepKey = (TrajectoryId, StepId);

/// A note on each of some steps.
#[derive(Debug)]
pub struct StepTable<V> {
    rows: Vec<(TrajectoryId, StepId, V)>,
}

spec fn at<V>(rows: Seq<(TrajectoryId, StepId, V)>, i: int, k: StepKey) -> bool {
    0 <= i < rows.len() && rows[i].0 == k.0 && rows[i].1 == k.1
}

spec fn row<V>(rows: Seq<(TrajectoryId, StepId, V)>, k: StepKey) -> int {
    choose|i: int| at(rows, i, k)
}

/// Each step has one row.
spec fn distinct<V>(rows: Seq<(TrajectoryId, StepId, V)>) -> bool {
    forall|i: int, j: int|
        #![trigger rows[i], rows[j]]
        0 <= i < j < rows.len() ==> !(rows[i].0 == rows[j].0 && rows[i].1 == rows[j].1)
}

spec fn table_of<V>(rows: Seq<(TrajectoryId, StepId, V)>) -> Map<StepKey, V> {
    Map::new(|k: StepKey| exists|i: int| at(rows, i, k), |k: StepKey| rows[row(rows, k)].2)
}

impl<V> View for StepTable<V> {
    type V = Map<StepKey, V>;

    closed spec fn view(&self) -> Map<StepKey, V> {
        table_of(self.rows@)
    }
}

/// The notes without those on the steps of `t`.
pub open spec fn without<V>(m: Map<StepKey, V>, t: TrajectoryId) -> Map<StepKey, V> {
    Map::new(|k: StepKey| m.dom().contains(k) && k.0 != t, |k: StepKey| m[k])
}

proof fn lemma_row<V>(rows: Seq<(TrajectoryId, StepId, V)>, i: int, k: StepKey)
    requires
        distinct(rows),
        at(rows, i, k),
    ensures
        row(rows, k) == i,
        table_of(rows).dom().contains(k),
        table_of(rows)[k] == rows[i].2,
{
    let j = row(rows, k);
    assert(at(rows, j, k));
    assert(rows[i] == rows[i] && rows[j] == rows[j]);
}

/// A row behind the others that no other row is about.
proof fn lemma_push<V>(rows: Seq<(TrajectoryId, StepId, V)>, k: StepKey, v: V)
    requires
        distinct(rows),
        !table_of(rows).dom().contains(k),
    ensures
        distinct(rows.push((k.0, k.1, v))),
        table_of(rows.push((k.0, k.1, v))) == table_of(rows).insert(k, v),
{
    let next = rows.push((k.0, k.1, v));
    assert forall|i: int, j: int|
        #![trigger next[i], next[j]]
        0 <= i < j < next.len() implies !(next[i].0 == next[j].0 && next[i].1 == next[j].1) by {
        if j < rows.len() {
            assert(rows[i] == next[i] && rows[j] == next[j]);
        } else {
            if next[i].0 == k.0 && next[i].1 == k.1 {
                assert(at(rows, i, k));
            }
        }
    }
    assert forall|x: StepKey| #[trigger] table_of(next).dom().contains(x) == table_of(rows).insert(
        k,
        v,
    ).dom().contains(x) by {
        if table_of(rows).dom().contains(x) {
            let i = row(rows, x);
            assert(at(rows, i, x));
            assert(at(next, i, x));
        }
        if x == k {
            assert(at(next, rows.len() as int, x));
        }
        if table_of(next).dom().contains(x) && x != k {
            let i = row(next, x);
            assert(at(next, i, x));
            assert(at(rows, i, x));
        }
    }
    assert forall|x: StepKey| table_of(next).dom().contains(x) implies #[trigger] table_of(next)[x]
        == table_of(rows).insert(k, v)[x] by {
        if x == k {
            lemma_row(next, rows.len() as int, x);
        } else {
            let i = row(next, x);
            assert(at(next, i, x));
            assert(at(rows, i, x));
            lemma_row(next, i, x);
            lemma_row(rows, i, x);
        }
    }
    assert(table_of(next) =~= table_of(rows).insert(k, v));
}

impl<V: Copy> StepTable<V> {
    /// Each step has one row.
    pub closed spec fn wf(self) -> bool {
        distinct(self.rows@)
    }

    pub fn new() -> (res: Self)
        ensures
            res.wf(),
            res@ == Map::<StepKey, V>::empty(),
    {
        let res = StepTable { rows: Vec::new() };
        assert(res@ =~= Map::<StepKey, V>::empty());
        res
    }

    pub fn get(&self, t: TrajectoryId, s: StepId) -> (res: Option<V>)
        requires
            self.wf(),
        ensures
            match res {
                Some(v) => self@.dom().contains((t, s)) && v == self@[(t, s)],
                None => !self@.dom().contains((t, s)),
            },
    {
        let mut i: usize = 0;
        while i < self.rows.len()
            invariant
                self.wf(),
                i <= self.rows@.len(),
                forall|j: int| 0 <= j < i ==> !#[trigger] at(self.rows@, j, (t, s)),
            decreases self.rows@.len() - i,
        {
            if self.rows[i].0 == t && self.rows[i].1 == s {
                proof {
                    lemma_row(self.rows@, i as int, (t, s));
                }
                return Some(self.rows[i].2);
            }
            i += 1;
        }
        None
    }

    /// The rows that `keep` says: all but that of a step, or all but those of
    /// a trajectory.
    fn kept(&self, t: TrajectoryId, s: Option<StepId>) -> (res: Vec<(TrajectoryId, StepId, V)>)
        requires
            self.wf(),
        ensures
            distinct(res@),
            table_of(res@) == (match s {
                Some(s) => self@.remove((t, s)),
                None => without(self@, t),
            }),
    {
        let ghost gone = |k: StepKey|
            k.0 == t && (match s {
                Some(x) => k.1 == x,
                None => true,
            });
        let mut res: Vec<(TrajectoryId, StepId, V)> = Vec::new();
        let mut i: usize = 0;
        assert(table_of(res@) =~= Map::empty());
        while i < self.rows.len()
            invariant
                self.wf(),
                i <= self.rows@.len(),
                gone == (|k: StepKey|
                    k.0 == t && (match s {
                        Some(x) => k.1 == x,
                        None => true,
                    })),
                distinct(res@),
                forall|k: StepKey| #[trigger]
                    table_of(res@).dom().contains(k) <==> !gone(k) && exists|j: int|
                        j < i && #[trigger] at(self.rows@, j, k),
                forall|k: StepKey| #[trigger]
                    table_of(res@).dom().contains(k) ==> table_of(res@)[k] == self@[k],
            decreases self.rows@.len() - i,
        {
            let r = self.rows[i];
            let ghost key: StepKey = (r.0, r.1);
            let ghost before = res@;
            let drop = match s {
                Some(x) => r.0 == t && r.1 == x,
                None => r.0 == t,
            };
            assert(drop == gone(key));
            assert(at(self.rows@, i as int, key));
            proof {
                lemma_row(self.rows@, i as int, key);
                assert(!table_of(before).dom().contains(key)) by {
                    if table_of(before).dom().contains(key) {
                        let j = choose|j: int| j < i && #[trigger] at(self.rows@, j, key);
                        assert(self.rows@[j] == self.rows@[j] && self.rows@[i as int]
                            == self.rows@[i as int]);
                    }
                }
            }
            if !drop {
                proof {
                    lemma_push(before, key, r.2);
                }
                res.push(r);
                assert(res@ =~= before.push((key.0, key.1, r.2)));
            }
            assert forall|k: StepKey| #[trigger] table_of(res@).dom().contains(k) == (!gone(k)
                && exists|j: int| j < i + 1 && #[trigger] at(self.rows@, j, k)) by {
                if table_of(res@).dom().contains(k) {
                    if k == key {
                        assert(at(self.rows@, i as int, k));
                    } else {
                        assert(table_of(before).dom().contains(k));
                        let j = choose|j: int| j < i && #[trigger] at(self.rows@, j, k);
                        assert(j < i + 1);
                    }
                }
                if !gone(k) && exists|j: int| j < i + 1 && #[trigger] at(self.rows@, j, k) {
                    let j = choose|j: int| j < i + 1 && #[trigger] at(self.rows@, j, k);
                    if j < i {
                        assert(table_of(before).dom().contains(k));
                    }
                }
            }
            i += 1;
        }
        proof {
            let want = match s {
                Some(s) => self@.remove((t, s)),
                None => without(self@, t),
            };
            assert forall|k: StepKey| #[trigger] table_of(res@).dom().contains(k)
                == want.dom().contains(k) by {
                if want.dom().contains(k) {
                    let j = row(self.rows@, k);
                    assert(at(self.rows@, j, k));
                }
            }
            assert(table_of(res@) =~= want);
        }
        res
    }

    pub fn remove(&mut self, t: TrajectoryId, s: StepId)
        requires
            old(self).wf(),
        ensures
            final(self).wf(),
            final(self)@ == old(self)@.remove((t, s)),
    {
        self.rows = self.kept(t, Some(s));
    }

    /// Drops the notes on all the steps of `t`.
    pub fn forget(&mut self, t: TrajectoryId)
        requires
            old(self).wf(),
        ensures
            final(self).wf(),
            final(self)@ == without(old(self)@, t),
    {
        self.rows = self.kept(t, None);
    }

    pub fn insert(&mut self, t: TrajectoryId, s: StepId, v: V)
        requires
            old(self).wf(),
        ensures
            final(self).wf(),
            final(self)@ == old(self)@.insert((t, s), v),
    {
        self.rows = self.kept(t, Some(s));
        proof {
            lemma_push(self.rows@, (t, s), v);
        }
        let ghost before = self.rows@;
        self.rows.push((t, s, v));
        assert(self.rows@ =~= before.push((t, s, v)));
        assert(self@ =~= old(self)@.insert((t, s), v));
    }

    pub fn is_empty(&self) -> (res: bool)
        ensures
            res <==> forall|k: StepKey| !#[trigger] self@.dom().contains(k),
    {
        if self.rows.len() > 0 {
            proof {
                let r = self.rows@[0];
                assert(at(self.rows@, 0, (r.0, r.1)));
                assert(self@.dom().contains((r.0, r.1)));
            }
            false
        } else {
            assert forall|k: StepKey| !#[trigger] self@.dom().contains(k) by {
                if self@.dom().contains(k) {
                    assert(at(self.rows@, row(self.rows@, k), k));
                }
            }
            true
        }
    }
}

} // verus!
