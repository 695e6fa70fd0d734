//! A table of values under names.
use vstd::prelude::*;

use crate::text::same;

verus! {

/// Values under names, each name once.
#[derive(Debug)]
pub struct NamedTable<V> {
    entries: Vec<(String, V)>,
}

spec fn stands<V>(es: Seq<(String, V)>, i: int, name: Seq<char>) -> bool {
    0 <= i < es.len() && es[i].0@ == name
}

spec fn knows<V>(es: Seq<(String, V)>, name: Seq<char>) -> bool {
    exists|i: int| stands(es, i, name)
}

spec fn place<V>(es: Seq<(String, V)>, name: Seq<char>) -> int {
    choose|i: int| stands(es, i, name)
}

spec fn as_map<V>(es: Seq<(String, V)>) -> Map<Seq<char>, V> {
    Map::new(|name: Seq<char>| knows(es, name), |name: Seq<char>| es[place(es, name)].1)
}

spec fn distinct<V>(es: Seq<(String, V)>) -> bool {
    forall|i: int, j: int|
        0 <= i < es.len() && 0 <= j < es.len() && (#[trigger] es[i]).0@ == (#[trigger] es[j]).0@
            ==> i == j
}

impl<V> View for NamedTable<V> {
    type V = Map<Seq<char>, V>;

    closed spec fn view(&self) -> Map<Seq<char>, V> {
        as_map(self.entries@)
    }
}

proof fn lemma_place<V>(es: Seq<(String, V)>, i: int, name: Seq<char>)
    requires
        distinct(es),
        stands(es, i, name),
    ensures
        knows(es, name),
        place(es, name) == i,
        as_map(es).dom().contains(name),
        as_map(es)[name] == es[i].1,
{
    let j = place(es, name);
    assert(stands(es, j, name));
    assert(es[i].0@ == es[j].0@);
}

proof fn lemma_remove<V>(es: Seq<(String, V)>, i: int)
    requires
        distinct(es),
        0 <= i < es.len(),
    ensures
        distinct(es.remove(i)),
        as_map(es.remove(i)) == as_map(es).remove(es[i].0@),
{
    let after = es.remove(i);
    let name = es[i].0@;
    assert forall|a: int, b: int|
        0 <= a < after.len() && 0 <= b < after.len() && (#[trigger] after[a]).0@ == (
        #[trigger] after[b]).0@ implies a == b by {
        let x = if a < i {
            a
        } else {
            a + 1
        };
        let y = if b < i {
            b
        } else {
            b + 1
        };
        assert(es[x].0@ == es[y].0@);
    }
    let x = as_map(after);
    let y = as_map(es).remove(name);
    assert forall|q: Seq<char>| x.dom().contains(q) <==> y.dom().contains(q) by {
        if knows(after, q) {
            let a = place(after, q);
            assert(stands(after, a, q));
            let a0 = if a < i {
                a
            } else {
                a + 1
            };
            assert(stands(es, a0, q));
            assert(es[a0].0@ == q);
        }
        if knows(es, q) && q != name {
            let a = place(es, q);
            assert(stands(es, a, q));
            let a1 = if a < i {
                a
            } else {
                a - 1
            };
            assert(after[a1] == es[a]);
            assert(stands(after, a1, q));
        }
    }
    assert forall|q: Seq<char>| #[trigger] x.dom().contains(q) implies x[q] == y[q] by {
        let a = place(after, q);
        assert(stands(after, a, q));
        let a0 = if a < i {
            a
        } else {
            a + 1
        };
        lemma_place(es, a0, q);
        assert(stands(es, a0, q));
    }
    assert(x =~= y);
}

proof fn lemma_push<V>(es: Seq<(String, V)>, name: String, v: V)
    requires
        distinct(es),
        !knows(es, name@),
    ensures
        distinct(es.push((name, v))),
        as_map(es.push((name, v))) == as_map(es).insert(name@, v),
{
    let after = es.push((name, v));
    let n = es.len() as int;
    assert forall|a: int, b: int|
        0 <= a < after.len() && 0 <= b < after.len() && (#[trigger] after[a]).0@ == (
        #[trigger] after[b]).0@ implies a == b by {
        if a < n && b == n {
            assert(stands(es, a, name@));
        } else if b < n && a == n {
            assert(stands(es, b, name@));
        } else if a < n && b < n {
            assert(es[a].0@ == es[b].0@);
        }
    }
    let x = as_map(after);
    let y = as_map(es).insert(name@, v);
    assert(stands(after, n, name@));
    assert forall|q: Seq<char>| x.dom().contains(q) <==> y.dom().contains(q) by {
        if knows(after, q) && q != name@ {
            let a = place(after, q);
            assert(stands(after, a, q));
            assert(stands(es, a, q));
        }
        if knows(es, q) {
            let a = place(es, q);
            assert(stands(es, a, q));
            assert(stands(after, a, q));
        }
    }
    assert forall|q: Seq<char>| #[trigger] x.dom().contains(q) implies x[q] == y[q] by {
        let a = place(after, q);
        assert(stands(after, a, q));
        if q == name@ {
            lemma_place(after, n, q);
        } else {
            assert(stands(es, a, q));
            lemma_place(es, a, q);
        }
    }
    assert(x =~= y);
}

impl<V> NamedTable<V> {
    pub closed spec fn wf(&self) -> bool {
        distinct(self.entries@)
    }

    pub fn new() -> (res: Self)
        ensures
            res.wf(),
            res@ == Map::<Seq<char>, V>::empty(),
    {
        let res = NamedTable { entries: Vec::new() };
        assert(res@ =~= Map::<Seq<char>, V>::empty());
        res
    }

    fn find(&self, name: &str) -> (res: Option<usize>)
        ensures
            match res {
                Some(i) => stands(self.entries@, i as int, name@),
                None => !knows(self.entries@, name@),
            },
    {
        let mut i: usize = 0;
        while i < self.entries.len()
            invariant
                i <= self.entries@.len(),
                forall|j: int| 0 <= j < i ==> !#[trigger] stands(self.entries@, j, name@),
            decreases self.entries@.len() - i,
        {
            if same(self.entries[i].0.as_str(), name) {
                return Some(i);
            }
            i += 1;
        }
        assert(forall|j: int| !#[trigger] stands(self.entries@, j, name@));
        None
    }

    pub fn get(&self, name: &str) -> (res: Option<&V>)
        requires
            self.wf(),
        ensures
            match res {
                Some(v) => self@.dom().contains(name@) && *v == self@[name@],
                None => !self@.dom().contains(name@),
            },
    {
        match self.find(name) {
            Some(i) => {
                proof {
                    lemma_place(self.entries@, i as int, name@);
                }
                Some(&self.entries[i].1)
            },
            None => None,
        }
    }

    pub fn contains(&self, name: &str) -> (res: bool)
        requires
            self.wf(),
        ensures
            res == self@.dom().contains(name@),
    {
        match self.find(name) {
            Some(i) => {
                proof {
                    lemma_place(self.entries@, i as int, name@);
                }
                true
            },
            None => false,
        }
    }

    /// Takes out what stands under a name.
    pub fn remove(&mut self, name: &str) -> (res: Option<V>)
        requires
            old(self).wf(),
        ensures
            final(self).wf(),
            match res {
                Some(v) => old(self)@.dom().contains(name@) && v == old(self)@[name@] && final(self)@ == old(self)@.remove(name@),
                None => !old(self)@.dom().contains(name@) && final(self)@ == old(self)@,
            },
    {
        match self.find(name) {
            Some(i) => {
                proof {
                    lemma_place(self.entries@, i as int, name@);
                    lemma_remove(self.entries@, i as int);
                }
                let (_, v) = self.entries.remove(i);
                Some(v)
            },
            None => None,
        }
    }

    /// Puts a value under a name; what stood there goes.
    pub fn insert(&mut self, name: &str, v: V)
        requires
            old(self).wf(),
        ensures
            final(self).wf(),
            final(self)@ == old(self)@.insert(name@, v),
    {
        let ghost before = self@;
        let _ = self.remove(name);
        let key = name.to_string();
        proof {
            assert(!self@.dom().contains(name@));
            lemma_push(self.entries@, key, v);
        }
        self.entries.push((key, v));
        assert(self@ =~= before.insert(name@, v));
    }
}

impl<V> Default for NamedTable<V> {
    fn default() -> (res: Self)
        ensures
            res.wf(),
            res@ == Map::<Seq<char>, V>::empty(),
    {
        Self::new()
    }
}

} // verus!
