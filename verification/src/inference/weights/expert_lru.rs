//! A bounded cache that gives up what was used longest ago.
use vstd::prelude::*;

verus! {

/// The entries that a cache holds, the one used longest ago first, and what it
/// has counted.
#[verifier::ext_equal]
pub struct LruView<V> {
    pub entries: Seq<(usize, V)>,
    pub cap: nat,
    pub hits: nat,
    pub misses: nat,
}

/// Where `id` stands, if it does.
pub open spec fn at<V>(es: Seq<(usize, V)>, id: usize) -> Option<int>
    decreases es.len(),
{
    if es.len() == 0 {
        None
    } else if es.last().0 == id {
        Some(es.len() - 1)
    } else {
        at(es.drop_last(), id)
    }
}

/// That each id stands once.
pub open spec fn once<V>(es: Seq<(usize, V)>) -> bool {
    forall|i: int, j: int|
        0 <= i < es.len() && 0 <= j < es.len() && (#[trigger] es[i]).0 == (#[trigger] es[j]).0
            ==> i == j
}

proof fn lemma_at<V>(es: Seq<(usize, V)>, id: usize)
    ensures
        match at(es, id) {
            Some(i) => 0 <= i < es.len() && es[i].0 == id,
            None => forall|i: int| 0 <= i < es.len() ==> (#[trigger] es[i]).0 != id,
        },
    decreases es.len(),
{
    if es.len() > 0 && es.last().0 != id {
        lemma_at(es.drop_last(), id);
        assert(forall|i: int| 0 <= i < es.len() - 1 ==> es.drop_last()[i] == #[trigger] es[i]);
    }
}

proof fn lemma_at_is<V>(es: Seq<(usize, V)>, id: usize, i: int)
    requires
        once(es),
        0 <= i < es.len(),
        es[i].0 == id,
    ensures
        at(es, id) == Some(i),
{
    lemma_at(es, id);
    let j = at(es, id)->Some_0;
    assert(es[i].0 == es[j].0);
}

impl<V> LruView<V> {
    /// The value under an id.
    pub open spec fn value(self, id: usize) -> Option<V> {
        match at(self.entries, id) {
            Some(i) => Some(self.entries[i].1),
            None => None,
        }
    }

    /// After an id was asked for: what is there becomes the newest.
    pub open spec fn touched(self, id: usize) -> LruView<V> {
        match at(self.entries, id) {
            Some(i) => LruView {
                entries: self.entries.remove(i).push(self.entries[i]),
                hits: self.hits + 1,
                ..self
            },
            None => LruView { misses: self.misses + 1, ..self },
        }
    }

    /// After a value was put under an id: it is the newest, and where it is a
    /// new one in a full cache the oldest goes.
    pub open spec fn stored(self, id: usize, v: V) -> LruView<V> {
        let rest = match at(self.entries, id) {
            Some(i) => self.entries.remove(i),
            None => if self.entries.len() >= self.cap {
                self.entries.skip(1)
            } else {
                self.entries
            },
        };
        LruView { entries: rest.push((id, v)), ..self }
    }
}

/// Least-recently-used cache.
#[derive(Debug)]
pub struct ExpertLru<V> {
    entries: Vec<(usize, V)>,
    cap: usize,
    hits: u64,
    misses: u64,
}

impl<V> View for ExpertLru<V> {
    type V = LruView<V>;

    closed spec fn view(&self) -> LruView<V> {
        LruView {
            entries: self.entries@,
            cap: self.cap as nat,
            hits: self.hits as nat,
            misses: self.misses as nat,
        }
    }
}

proof fn lemma_removed<V>(es: Seq<(usize, V)>, i: int)
    requires
        once(es),
        0 <= i < es.len(),
    ensures
        once(es.remove(i)),
        forall|j: int| 0 <= j < es.remove(i).len() ==> (#[trigger] es.remove(i)[j]).0 != es[i].0,
{
    let r = es.remove(i);
    assert forall|a: int, b: int|
        0 <= a < r.len() && 0 <= b < r.len() && (#[trigger] r[a]).0 == (#[trigger] r[b]).0 implies a
        == b by {
        let x = if a < i {
            a
        } else {
            a + 1
        };
        let y = if b < i {
            b
        } else {
            b + 1
        };
        assert(es[x].0 == es[y].0);
    }
    assert forall|j: int| 0 <= j < r.len() implies (#[trigger] r[j]).0 != es[i].0 by {
        let x = if j < i {
            j
        } else {
            j + 1
        };
        assert(r[j] == es[x]);
    }
}

impl<V> ExpertLru<V> {
    /// No id stands twice, and the cache keeps to its bound.
    pub open spec fn wf(&self) -> bool {
        &&& once(self@.entries)
        &&& self@.entries.len() <= self@.cap
        &&& self@.cap >= 1
    }

    /// A cache for `cap` values, one at least.
    pub fn new(cap: usize) -> (res: Self)
        ensures
            res.wf(),
            res@ == (LruView {
                entries: Seq::<(usize, V)>::empty(),
                cap: if cap < 1 {
                    1
                } else {
                    cap as nat
                },
                hits: 0,
                misses: 0,
            }),
    {
        let res = ExpertLru {
            entries: Vec::new(),
            cap: if cap < 1 {
                1
            } else {
                cap
            },
            hits: 0,
            misses: 0,
        };
        assert(res@.entries =~= Seq::<(usize, V)>::empty());
        res
    }

    fn find(&self, id: usize) -> (res: Option<usize>)
        requires
            self.wf(),
        ensures
            match res {
                Some(i) => at(self@.entries, id) == Some(i as int) && i < self.entries@.len(),
                None => at(self@.entries, id) is None,
            },
    {
        let mut i: usize = 0;
        while i < self.entries.len()
            invariant
                self.wf(),
                i <= self.entries@.len(),
                forall|j: int| 0 <= j < i ==> (#[trigger] self.entries@[j]).0 != id,
            decreases self.entries@.len() - i,
        {
            if self.entries[i].0 == id {
                proof {
                    lemma_at_is(self.entries@, id, i as int);
                }
                return Some(i);
            }
            i += 1;
        }
        proof {
            lemma_at(self.entries@, id);
        }
        None
    }

    /// The value under an id, which becomes the newest.
    pub fn get(&mut self, id: usize) -> (res: Option<&V>)
        requires
            old(self).wf(),
            old(self)@.hits < u64::MAX,
            old(self)@.misses < u64::MAX,
        ensures
            final(self).wf(),
            final(self)@ == old(self)@.touched(id),
            match res {
                Some(v) => old(self)@.value(id) == Some(*v),
                None => old(self)@.value(id) is None,
            },
    {
        match self.find(id) {
            Some(i) => {
                let ghost es = self.entries@;
                proof {
                    lemma_at(es, id);
                    lemma_removed(es, i as int);
                }
                self.hits = self.hits + 1;
                let e = self.entries.remove(i);
                self.entries.push(e);
                assert(once(self.entries@)) by {
                    let r = es.remove(i as int);
                    let n = r.len() as int;
                    assert forall|a: int, b: int|
                        0 <= a < n + 1 && 0 <= b < n + 1 && (#[trigger] self.entries@[a]).0 == (
                        #[trigger] self.entries@[b]).0 implies a == b by {
                        if a < n && b < n {
                            assert(r[a].0 == r[b].0);
                        } else if a < n {
                            assert(r[a].0 != es[i as int].0);
                        } else if b < n {
                            assert(r[b].0 != es[i as int].0);
                        }
                    }
                }
                let last: usize = self.entries.len() - 1;
                Some(&self.entries[last].1)
            },
            None => {
                self.misses = self.misses + 1;
                None
            },
        }
    }

    /// The value under an id, without use being made of it.
    pub fn peek(&self, id: usize) -> (res: Option<&V>)
        requires
            self.wf(),
        ensures
            match res {
                Some(v) => self@.value(id) == Some(*v),
                None => self@.value(id) is None,
            },
    {
        match self.find(id) {
            Some(i) => Some(&self.entries[i].1),
            None => None,
        }
    }

    /// Puts a value under an id.
    pub fn put(&mut self, id: usize, v: V)
        requires
            old(self).wf(),
        ensures
            final(self).wf(),
            final(self)@ == old(self)@.stored(id, v),
    {
        let ghost es = self.entries@;
        proof {
            lemma_at(es, id);
        }
        match self.find(id) {
            Some(i) => {
                proof {
                    lemma_removed(es, i as int);
                }
                let _ = self.entries.remove(i);
            },
            None => {
                if self.entries.len() >= self.cap {
                    proof {
                        lemma_removed(es, 0);
                        assert(es.remove(0) =~= es.skip(1));
                    }
                    let _ = self.entries.remove(0);
                }
            },
        }
        let ghost r = self.entries@;
        assert(once(r));
        assert(forall|j: int| 0 <= j < r.len() ==> (#[trigger] r[j]).0 != id) by {
            assert forall|j: int| 0 <= j < r.len() implies (#[trigger] r[j]).0 != id by {
                if at(es, id) is None && es.len() >= self.cap {
                    assert(r[j] == es[j + 1]);
                }
            }
        }
        self.entries.push((id, v));
        assert forall|a: int, b: int|
            0 <= a < r.len() + 1 && 0 <= b < r.len() + 1 && (#[trigger] self.entries@[a]).0 == (
            #[trigger] self.entries@[b]).0 implies a == b by {
            if a < r.len() && b < r.len() {
                assert(r[a].0 == r[b].0);
            } else if a < r.len() {
                assert(r[a].0 != id);
            } else if b < r.len() {
                assert(r[b].0 != id);
            }
        }
    }

    /// How often a value was there, and how often not.
    pub fn stats(&self) -> (res: (u64, u64))
        ensures
            res.0 == self@.hits,
            res.1 == self@.misses,
    {
        (self.hits, self.misses)
    }
}

/// What was put reads back, and so does everything else but the one that went
/// to make room: the one used longest ago.
pub proof fn law_put_then_get<V>(c: LruView<V>, id: usize, v: V, other: usize)
    requires
        once(c.entries),
        c.cap >= 1,
    ensures
        c.stored(id, v).value(id) == Some(v),
        other != id && (c.entries.len() == 0 || other != c.entries[0].0) ==> c.stored(id, v).value(
            other,
        ) == c.value(other),
        c.entries.len() < c.cap && other != id ==> c.stored(id, v).value(other) == c.value(other),
        c.entries.len() <= c.cap ==> c.stored(id, v).entries.len() <= c.cap,
{
    let es = c.entries;
    let rest = match at(es, id) {
        Some(i) => es.remove(i),
        None => if es.len() >= c.cap {
            es.skip(1)
        } else {
            es
        },
    };
    let now = c.stored(id, v).entries;
    lemma_at(es, id);
    assert(now.last() == (id, v));
    if other != id {
        assert(now.drop_last() =~= rest);
        lemma_at(es, other);
        lemma_at(rest, other);
        match at(es, id) {
            Some(i) => {
                lemma_removed(es, i);
                if let Some(j) = at(es, other) {
                    let k = if j < i {
                        j
                    } else {
                        j - 1
                    };
                    assert(rest[k] == es[j]);
                    lemma_at_is(rest, other, k);
                } else if let Some(k) = at(rest, other) {
                    let j = if k < i {
                        k
                    } else {
                        k + 1
                    };
                    assert(es[j] == rest[k]);
                }
            },
            None => {
                if es.len() >= c.cap && es.len() > 0 {
                    lemma_removed(es, 0);
                    assert(es.remove(0) =~= rest);
                    if let Some(j) = at(es, other) {
                        if j > 0 {
                            assert(rest[j - 1] == es[j]);
                            lemma_at_is(rest, other, j - 1);
                        }
                    } else if let Some(k) = at(rest, other) {
                        assert(es[k + 1] == rest[k]);
                    }
                }
            },
        }
    }
}

/// Asking for a value changes no value, and makes it the last to go.
pub proof fn law_get_keeps_values<V>(c: LruView<V>, id: usize, other: usize)
    requires
        once(c.entries),
    ensures
        c.touched(id).value(other) == c.value(other),
        c.value(id) is Some ==> c.touched(id).entries.last().0 == id,
        c.touched(id).hits + c.touched(id).misses == c.hits + c.misses + 1,
{
    let es = c.entries;
    lemma_at(es, id);
    lemma_at(es, other);
    if let Some(i) = at(es, id) {
        lemma_removed(es, i);
        let r = es.remove(i);
        let now = c.touched(id).entries;
        assert(now.drop_last() =~= r);
        if other != id {
            lemma_at(r, other);
            if let Some(j) = at(es, other) {
                let k = if j < i {
                    j
                } else {
                    j - 1
                };
                assert(r[k] == es[j]);
                lemma_at_is(r, other, k);
            } else if let Some(k) = at(r, other) {
                let j = if k < i {
                    k
                } else {
                    k + 1
                };
                assert(es[j] == r[k]);
            }
        }
    }
}

} // verus!
